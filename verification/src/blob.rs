//! The blob lock and offset-allocation engine.
//!
//! A fixed pool of `max_files` append-only file slots is shared by many
//! writers. A writer asks for space for a batch of keyed entries; the engine
//! reserves a byte range in a free slot, installs a time-bounded lease for
//! the writer, and marks the keys pending. The writer copies bytes
//! out-of-band and then unlocks, which commits the keys and frees the slot.
//! If the writer disappears, its lease expires and the slot is reclaimed;
//! the reserved bytes become a permanent hole and the keys stay pending
//! ("ghosts") until a later batch claims them again.
//!
//! The engine is a pure state machine: every operation takes the current
//! time as an argument, and waiting for a busy pool is expressed by an
//! explicit FIFO queue of waiters plus recorded grants, which the caller
//! polls. The surrounding process supplies the clock, the serialization
//! (one mutating call at a time) and the transport.

use vstd::prelude::*;
use vstd::pervasive::VecAdditionalExecFns;

use crate::decfmt::{dec_rep, push_dec};
use crate::errors::{BlobError, BlobErrorModel};
use crate::http::{BlobEntry, EntryModel};

verus! {

// ------------------------------------------------------------------
// Configuration
// ------------------------------------------------------------------

/// Configuration of the engine, fixed for the life of the coordinator.
pub struct BlobStorageConfig {
    /// Number of file slots in the pool.
    pub max_files: u32,
    /// Seconds before an un-refreshed lease is reclaimed.
    pub lock_timeout: u64,
    /// Keys refused by the reserved-name policy.
    pub prohibited_keys: Vec<String>,
}

/// Spec-level mirror of `BlobStorageConfig`.
pub struct ConfigModel {
    pub max_files: u32,
    pub lock_timeout: u64,
    pub prohibited_keys: Seq<Seq<char>>,
}

impl View for BlobStorageConfig {
    type V = ConfigModel;

    open spec fn view(&self) -> ConfigModel {
        ConfigModel {
            max_files: self.max_files,
            lock_timeout: self.lock_timeout,
            prohibited_keys: Seq::new(
                self.prohibited_keys@.len(),
                |i: int| self.prohibited_keys@[i]@,
            ),
        }
    }
}

impl BlobStorageConfig {
    /// A configuration with an empty reserved-name policy.
    pub fn new(max_files: u32, lock_timeout: u64) -> (r: BlobStorageConfig)
        ensures
            r@.max_files == max_files,
            r@.lock_timeout == lock_timeout,
            r@.prohibited_keys.len() == 0,
    {
        let r = BlobStorageConfig { max_files, lock_timeout, prohibited_keys: Vec::new() };
        proof {
            assert(r@.prohibited_keys =~= Seq::<Seq<char>>::empty());
        }
        r
    }
}

// ------------------------------------------------------------------
// Results handed to callers
// ------------------------------------------------------------------

/// Result of a successful allocation: where the caller may write.
#[derive(Debug, Clone)]
pub struct BlobOffset {
    pub file_id: u32,
    pub byte_offset: u64,
    /// True exactly when this allocation is the first against the slot,
    /// so the caller must create the backing file.
    pub needs_creation: bool,
    pub file_name: String,
}

/// Spec-level mirror of `BlobOffset`.
pub struct OffsetModel {
    pub file_id: u32,
    pub byte_offset: u64,
    pub needs_creation: bool,
    pub file_name: Seq<char>,
}

impl View for BlobOffset {
    type V = OffsetModel;

    open spec fn view(&self) -> OffsetModel {
        OffsetModel {
            file_id: self.file_id,
            byte_offset: self.byte_offset,
            needs_creation: self.needs_creation,
            file_name: self.file_name@,
        }
    }
}

/// Result of a lookup of a committed key: where its bytes live.
#[derive(Debug, Clone)]
pub struct BlobStorageSlice {
    pub file_id: u32,
    pub file_name: String,
    pub byte_offset: u64,
    pub num_bytes: u64,
}

/// Spec-level mirror of `BlobStorageSlice`.
pub struct SliceModel {
    pub file_id: u32,
    pub file_name: Seq<char>,
    pub byte_offset: u64,
    pub num_bytes: u64,
}

impl View for BlobStorageSlice {
    type V = SliceModel;

    open spec fn view(&self) -> SliceModel {
        SliceModel {
            file_id: self.file_id,
            file_name: self.file_name@,
            byte_offset: self.byte_offset,
            num_bytes: self.num_bytes,
        }
    }
}

/// Outcome of `create_and_lock`: either space was granted at once, or the
/// request joined the FIFO queue and the ticket must be polled via
/// `take_grant` once a slot frees.
#[derive(Debug, Clone)]
pub enum LockOutcome {
    Granted(BlobOffset),
    Queued(u64),
}

/// Spec-level mirror of `LockOutcome`.
pub enum LockOutcomeModel {
    Granted(OffsetModel),
    Queued(u64),
}

impl View for LockOutcome {
    type V = LockOutcomeModel;

    open spec fn view(&self) -> LockOutcomeModel {
        match self {
            LockOutcome::Granted(o) => LockOutcomeModel::Granted(o@),
            LockOutcome::Queued(t) => LockOutcomeModel::Queued(*t),
        }
    }
}

// ------------------------------------------------------------------
// Internal state
// ------------------------------------------------------------------

/// A time-bounded exclusive claim by one node over one slot.
#[derive(Debug, Clone)]
pub struct Lease {
    pub holder: String,
    pub generation: u64,
    pub expires_at: u64,
}

/// Spec-level mirror of `Lease`.
pub struct LeaseModel {
    pub holder: Seq<char>,
    pub generation: u64,
    pub expires_at: u64,
}

impl View for Lease {
    type V = LeaseModel;

    open spec fn view(&self) -> LeaseModel {
        LeaseModel {
            holder: self.holder@,
            generation: self.generation,
            expires_at: self.expires_at,
        }
    }
}

/// One append-only file slot.
#[derive(Debug, Clone)]
pub struct Slot {
    /// False until the first successful allocation against the slot.
    pub exists: bool,
    /// Next free byte offset; never decreases.
    pub length: u64,
    /// The live or expired lease, if any.
    pub lease: Option<Lease>,
}

/// Spec-level mirror of `Slot`.
pub struct SlotModel {
    pub exists: bool,
    pub length: u64,
    pub lease: Option<LeaseModel>,
}

impl View for Slot {
    type V = SlotModel;

    open spec fn view(&self) -> SlotModel {
        SlotModel {
            exists: self.exists,
            length: self.length,
            lease: match &self.lease {
                Some(l) => Some(l@),
                None => None,
            },
        }
    }
}

/// Registration state of one logical key.
#[derive(Debug, Clone, Copy)]
pub enum KeyState {
    /// Reserved by the lease of generation `generation`; not yet readable.
    Pending { file_id: u32, offset: u64, num_bytes: u64, generation: u64 },
    /// Durable and readable forever; never overwritten.
    Committed { file_id: u32, offset: u64, num_bytes: u64 },
}

/// One entry of the key registry.
#[derive(Debug, Clone)]
pub struct RegEntry {
    pub key: String,
    pub state: KeyState,
}

/// Spec-level mirror of `RegEntry`.
pub struct RegEntryModel {
    pub key: Seq<char>,
    pub state: KeyState,
}

impl View for RegEntry {
    type V = RegEntryModel;

    open spec fn view(&self) -> RegEntryModel {
        RegEntryModel { key: self.key@, state: self.state }
    }
}

/// A queued allocation request, kept in arrival order.
#[derive(Debug, Clone)]
pub struct Waiter {
    pub ticket: u64,
    pub node_id: String,
    pub entries: Vec<BlobEntry>,
}

/// Spec-level mirror of `Waiter`.
pub struct WaiterModel {
    pub ticket: u64,
    pub node_id: Seq<char>,
    pub entries: Seq<EntryModel>,
}

impl View for Waiter {
    type V = WaiterModel;

    open spec fn view(&self) -> WaiterModel {
        WaiterModel {
            ticket: self.ticket,
            node_id: self.node_id@,
            entries: batch_model(self.entries@),
        }
    }
}

/// The recorded outcome of a queued request that has been decided.
#[derive(Debug)]
pub struct Grant {
    pub ticket: u64,
    pub result: Result<BlobOffset, BlobError>,
}

/// Spec-level mirror of `Grant`.
pub struct GrantModel {
    pub ticket: u64,
    pub result: Result<OffsetModel, BlobErrorModel>,
}

/// The view of a decided allocation outcome.
pub open spec fn result_model(r: Result<BlobOffset, BlobError>) -> Result<
    OffsetModel,
    BlobErrorModel,
> {
    match r {
        Ok(o) => Ok(o@),
        Err(e) => Err(e@),
    }
}

impl View for Grant {
    type V = GrantModel;

    open spec fn view(&self) -> GrantModel {
        GrantModel { ticket: self.ticket, result: result_model(self.result) }
    }
}

/// The coordinator state: slot table, lock table, key registry, waiter
/// queue and decided grants, plus the generation and ticket counters.
pub struct BlobStorage {
    pub config: BlobStorageConfig,
    pub slots: Vec<Slot>,
    pub registry: Vec<RegEntry>,
    pub waiters: Vec<Waiter>,
    pub grants: Vec<Grant>,
    pub next_generation: u64,
    pub next_ticket: u64,
}

/// Spec-level mirror of the whole coordinator state.
#[verifier::ext_equal]
pub struct StorageModel {
    pub config: ConfigModel,
    pub slots: Seq<SlotModel>,
    pub registry: Seq<RegEntryModel>,
    pub waiters: Seq<WaiterModel>,
    pub grants: Seq<GrantModel>,
    pub next_generation: u64,
    pub next_ticket: u64,
}

/// Element-wise views of the concrete tables.
pub open spec fn slots_model(v: Seq<Slot>) -> Seq<SlotModel> {
    Seq::new(v.len(), |i: int| v[i]@)
}

pub open spec fn reg_model(v: Seq<RegEntry>) -> Seq<RegEntryModel> {
    Seq::new(v.len(), |i: int| v[i]@)
}

pub open spec fn waiters_model(v: Seq<Waiter>) -> Seq<WaiterModel> {
    Seq::new(v.len(), |i: int| v[i]@)
}

pub open spec fn grants_model(v: Seq<Grant>) -> Seq<GrantModel> {
    Seq::new(v.len(), |i: int| v[i]@)
}

impl View for BlobStorage {
    type V = StorageModel;

    open spec fn view(&self) -> StorageModel {
        StorageModel {
            config: self.config@,
            slots: slots_model(self.slots@),
            registry: reg_model(self.registry@),
            waiters: waiters_model(self.waiters@),
            grants: grants_model(self.grants@),
            next_generation: self.next_generation,
            next_ticket: self.next_ticket,
        }
    }
}

// ------------------------------------------------------------------
// Core spec functions
// ------------------------------------------------------------------

/// The view of a batch of entries.
pub open spec fn batch_model(entries: Seq<BlobEntry>) -> Seq<EntryModel> {
    Seq::new(entries.len(), |i: int| entries[i]@)
}

/// The deterministic file name of a slot.
pub open spec fn file_name_spec(file_id: u32) -> Seq<char> {
    "blob_"@ + dec_rep(file_id as int)
}

/// Whether the slot holds a lease that has not yet expired at `now`.
pub open spec fn live_lease(s: SlotModel, now: u64) -> bool {
    s.lease matches Some(l) && l.expires_at > now
}

/// When a lease created or refreshed at `now` expires; saturates at the
/// largest representable time.
pub open spec fn expiry_time(now: u64, timeout: u64) -> u64 {
    if now + timeout <= u64::MAX {
        (now + timeout) as u64
    } else {
        u64::MAX
    }
}

/// Total bytes of a batch.
pub open spec fn batch_total(entries: Seq<EntryModel>) -> int
    decreases entries.len(),
{
    if entries.len() == 0 {
        0
    } else {
        entries[0].num_bytes + batch_total(entries.drop_first())
    }
}

/// Whether the same key occurs twice in a batch.
pub open spec fn has_dup(entries: Seq<EntryModel>) -> bool {
    exists|i: int, j: int|
        0 <= i < j < entries.len() && entries[i].key == entries[j].key
}

/// Whether the reserved-name policy refuses `key`.
pub open spec fn is_prohibited(cfg: ConfigModel, key: Seq<char>) -> bool {
    exists|i: int| 0 <= i < cfg.prohibited_keys.len() && cfg.prohibited_keys[i] == key
}

/// Whether some registry entry carries `key`.
pub open spec fn reg_has(reg: Seq<RegEntryModel>, key: Seq<char>) -> bool {
    exists|i: int| 0 <= i < reg.len() && reg[i].key == key
}

/// Index of the registry entry carrying `key` (registry keys are unique).
pub open spec fn reg_idx(reg: Seq<RegEntryModel>, key: Seq<char>) -> int {
    choose|i: int| 0 <= i < reg.len() && reg[i].key == key
}

/// Registration state of `key`: `None` means unregistered.
pub open spec fn reg_state(reg: Seq<RegEntryModel>, key: Seq<char>) -> Option<KeyState> {
    if reg_has(reg, key) {
        Some(reg[reg_idx(reg, key)].state)
    } else {
        None
    }
}

/// Whether a pending registration is still protected by the live lease of
/// its generation.
pub open spec fn pending_live(m: StorageModel, file_id: u32, generation: u64, now: u64) -> bool {
    &&& file_id < m.slots.len()
    &&& m.slots[file_id as int].lease matches Some(l) && l.generation == generation
        && l.expires_at > now
}

/// Whether `key` may not be the target of a new allocation at `now`:
/// committed keys are frozen forever, and pending keys are unavailable
/// while the lease that reserved them is still live.
pub open spec fn key_unavailable(m: StorageModel, key: Seq<char>, now: u64) -> bool {
    match reg_state(m.registry, key) {
        Some(KeyState::Committed { .. }) => true,
        Some(KeyState::Pending { file_id, generation, .. }) => pending_live(
            m,
            file_id,
            generation,
            now,
        ),
        None => false,
    }
}

/// First validation failure among the batch entries, scanned in order.
pub open spec fn first_invalid(
    m: StorageModel,
    entries: Seq<EntryModel>,
    now: u64,
) -> Option<BlobErrorModel>
    decreases entries.len(),
{
    if entries.len() == 0 {
        None
    } else if is_prohibited(m.config, entries[0].key) {
        Some(BlobErrorModel::ProhibitedKey(entries[0].key))
    } else if key_unavailable(m, entries[0].key, now) {
        Some(BlobErrorModel::AlreadyExists(entries[0].key))
    } else {
        first_invalid(m, entries.drop_first(), now)
    }
}

/// Validation of a batch against the registry and lock table: duplicates
/// first, then per-entry checks in batch order. `None` means the batch is
/// acceptable.
pub open spec fn validate(
    m: StorageModel,
    entries: Seq<EntryModel>,
    now: u64,
) -> Option<BlobErrorModel> {
    if has_dup(entries) {
        Some(BlobErrorModel::DuplicateKeys)
    } else {
        first_invalid(m, entries, now)
    }
}

/// The lowest slot with no live lease at `now`, searching from `i` up.
pub open spec fn first_free_from(m: StorageModel, now: u64, i: int) -> Option<int>
    decreases m.slots.len() - i,
{
    if i < 0 || i >= m.slots.len() {
        None
    } else if !live_lease(m.slots[i], now) {
        Some(i)
    } else {
        first_free_from(m, now, i + 1)
    }
}

/// The lowest slot with no live lease at `now`.
pub open spec fn first_free(m: StorageModel, now: u64) -> Option<int> {
    first_free_from(m, now, 0)
}

/// Byte range `[off, off + len)` of one registration.
pub open spec fn state_file_id(st: KeyState) -> u32 {
    match st {
        KeyState::Pending { file_id, .. } => file_id,
        KeyState::Committed { file_id, .. } => file_id,
    }
}

pub open spec fn state_offset(st: KeyState) -> u64 {
    match st {
        KeyState::Pending { offset, .. } => offset,
        KeyState::Committed { offset, .. } => offset,
    }
}

pub open spec fn state_num_bytes(st: KeyState) -> u64 {
    match st {
        KeyState::Pending { num_bytes, .. } => num_bytes,
        KeyState::Committed { num_bytes, .. } => num_bytes,
    }
}

/// Two byte ranges do not overlap (an empty range overlaps nothing).
pub open spec fn ranges_disjoint(o1: u64, n1: u64, o2: u64, n2: u64) -> bool {
    n1 == 0 || n2 == 0 || o1 + n1 <= o2 || o2 + n2 <= o1
}

// ------------------------------------------------------------------
// Well-formedness
// ------------------------------------------------------------------

/// Well-formedness of the coordinator state. Constructors establish it and
/// every operation preserves it.
pub open spec fn inv(m: StorageModel) -> bool {
    // the slot pool has the configured fixed size
    &&& m.slots.len() == m.config.max_files as int
    // registry keys are unique
    &&& forall|i: int, j: int|
        0 <= i < j < m.registry.len() ==> m.registry[i].key != m.registry[j].key
    // every registration points into its slot's reserved range
    &&& forall|i: int|
        0 <= i < m.registry.len() ==> {
            let st = #[trigger] m.registry[i].state;
            &&& (state_file_id(st) as int) < m.slots.len()
            &&& state_offset(st) + state_num_bytes(st) <= m.slots[state_file_id(
                st,
            ) as int].length
        }
    // registrations in the same slot never overlap
    &&& forall|i: int, j: int|
        0 <= i < m.registry.len() && 0 <= j < m.registry.len() && i != j
            && state_file_id(#[trigger] m.registry[i].state) == state_file_id(
            #[trigger] m.registry[j].state,
        ) ==> ranges_disjoint(
            state_offset(m.registry[i].state),
            state_num_bytes(m.registry[i].state),
            state_offset(m.registry[j].state),
            state_num_bytes(m.registry[j].state),
        )
    // lease generations were issued by the counter
    &&& forall|s: int|
        0 <= s < m.slots.len() ==> ((#[trigger] m.slots[s].lease) matches Some(l) ==>
        l.generation < m.next_generation)
    // pending generations were issued by the counter
    &&& forall|i: int|
        0 <= i < m.registry.len() ==> ((#[trigger] m.registry[i].state) matches KeyState::Pending {
            generation,
            ..
        } ==> generation < m.next_generation)
    // waiters sit in arrival order with tickets from the counter
    &&& forall|i: int, j: int|
        0 <= i < j < m.waiters.len() ==> m.waiters[i].ticket < m.waiters[j].ticket
    &&& forall|i: int| 0 <= i < m.waiters.len() ==> (#[trigger] m.waiters[i].ticket)
        < m.next_ticket
    // decided grants carry distinct tickets issued by the counter
    &&& forall|i: int, j: int|
        0 <= i < j < m.grants.len() ==> m.grants[i].ticket != m.grants[j].ticket
    &&& forall|i: int| 0 <= i < m.grants.len() ==> (#[trigger] m.grants[i].ticket) < m.next_ticket
    // a ticket is either still queued or already decided, never both
    &&& forall|i: int, j: int|
        0 <= i < m.waiters.len() && 0 <= j < m.grants.len() ==> m.waiters[i].ticket
            != m.grants[j].ticket
}

/// Headroom of the generation and ticket counters: enough room to issue a
/// fresh lease per queued waiter plus one, and one more ticket. A machine
/// limit, not a protocol rule.
pub open spec fn counters_ok(m: StorageModel) -> bool {
    &&& m.next_generation + m.waiters.len() + 1 <= u64::MAX
    &&& m.next_ticket < u64::MAX
}

// ------------------------------------------------------------------
// The engine
// ------------------------------------------------------------------

impl BlobStorage {
    /// Well-formedness of this coordinator.
    pub open spec fn wf(&self) -> bool {
        inv(self@)
    }

    /// Starts a coordinator with empty registry, all slots absent and no
    /// queued work.
    pub fn init(config: BlobStorageConfig) -> (r: BlobStorage)
        ensures
            r.wf(),
            r@.config == config@,
            r@.slots.len() == config@.max_files as int,
            forall|i: int|
                0 <= i < r@.slots.len() ==> r@.slots[i] == (SlotModel {
                    exists: false,
                    length: 0u64,
                    lease: None,
                }),
            r@.registry.len() == 0,
            r@.waiters.len() == 0,
            r@.grants.len() == 0,
            r@.next_generation == 0u64,
            r@.next_ticket == 0u64,
    {
        let max = config.max_files;
        let mut slots: Vec<Slot> = Vec::new();
        let mut i: u32 = 0;
        while i < max
            invariant
                i <= max,
                slots@.len() == i as int,
                forall|k: int|
                    0 <= k < i as int ==> slots@[k]@ == (SlotModel {
                        exists: false,
                        length: 0u64,
                        lease: None,
                    }),
            decreases max - i,
        {
            slots.push(Slot { exists: false, length: 0, lease: None });
            i = i + 1;
        }
        let r = BlobStorage {
            config,
            slots,
            registry: Vec::new(),
            waiters: Vec::new(),
            grants: Vec::new(),
            next_generation: 0,
            next_ticket: 0,
        };
        proof {
            assert(r@.registry =~= Seq::<RegEntryModel>::empty());
            assert(r@.waiters =~= Seq::<WaiterModel>::empty());
            assert(r@.grants =~= Seq::<GrantModel>::empty());
        }
        r
    }

    /// The deterministic backing-file name of a slot.
    fn make_file_name(file_id: u32) -> (r: String)
        ensures
            r@ == file_name_spec(file_id),
    {
        let mut s = String::from_str("blob_");
        push_dec(&mut s, file_id as u64);
        proof {
            assert(s@ =~= file_name_spec(file_id));
        }
        s
    }

    /// Looks a key up in the registry: committed keys yield the slice that
    /// was committed for them, pending keys (ghosts included) are not yet
    /// readable, and unregistered keys do not exist.
    pub fn lookup(&self, key: String) -> (r: Result<BlobStorageSlice, BlobError>)
        requires
            self.wf(),
        ensures
            match reg_state(self@.registry, key@) {
                Some(KeyState::Committed { file_id, offset, num_bytes }) => r matches Ok(sl)
                    && sl@ == (SliceModel {
                    file_id,
                    file_name: file_name_spec(file_id),
                    byte_offset: offset,
                    num_bytes,
                }),
                Some(KeyState::Pending { .. }) => r matches Err(e) && e@
                    == BlobErrorModel::NotWritten,
                None => r matches Err(e) && e@ == BlobErrorModel::DoesNotExist(key@),
            },
    {
        let n = self.registry.len();
        let mut j: usize = 0;
        while j < n
            invariant
                self.wf(),
                n == self.registry@.len(),
                j <= n,
                forall|k: int| 0 <= k < j as int ==> self@.registry[k].key != key@,
            decreases n - j,
        {
            if self.registry[j].key == key {
                proof {
                    let reg = self@.registry;
                    assert(reg[j as int].key == key@);
                    assert(reg_has(reg, key@)) by {
                        assert(reg[j as int].key == key@);
                    }
                    let ri = reg_idx(reg, key@);
                    assert(0 <= ri < reg.len() && reg[ri].key == key@);
                    if ri < j as int {
                        assert(reg[ri].key != reg[j as int].key);
                    } else if ri > j as int {
                        assert(reg[j as int].key != reg[ri].key);
                    }
                    assert(ri == j as int);
                }
                match self.registry[j].state {
                    KeyState::Committed { file_id, offset, num_bytes } => {
                        return Ok(
                            BlobStorageSlice {
                                file_id,
                                file_name: Self::make_file_name(file_id),
                                byte_offset: offset,
                                num_bytes,
                            },
                        );
                    },
                    KeyState::Pending { .. } => {
                        return Err(BlobError::NotWritten);
                    },
                }
            }
            j = j + 1;
        }
        proof {
            assert(!reg_has(self@.registry, key@));
        }
        Err(BlobError::DoesNotExist(key))
    }

    /// Pushes the expiry of the slot's live lease forward; fails if the
    /// lease is gone or already expired.
    pub fn keep_alive_lock(&mut self, file_id: u32, now: u64) -> (r: Result<(), BlobError>)
        requires
            old(self).wf(),
        ensures
            final(self).wf(),
            final(self)@.slots.len() == old(self)@.slots.len(),
            forall|k: int|
                0 <= k < old(self)@.slots.len() ==> final(self)@.slots[k].length >= old(
                    self,
                )@.slots[k].length,
            if (file_id as int) < old(self)@.slots.len() && live_lease(
                old(self)@.slots[file_id as int],
                now,
            ) {
                r matches Ok(()) && final(self)@ == (StorageModel {
                    slots: old(self)@.slots.update(
                        file_id as int,
                        SlotModel {
                            lease: Some(
                                LeaseModel {
                                    expires_at: expiry_time(now, old(self)@.config.lock_timeout),
                                    ..old(self)@.slots[file_id as int].lease->0
                                },
                            ),
                            ..old(self)@.slots[file_id as int]
                        },
                    ),
                    ..old(self)@
                })
            } else {
                r matches Err(e) && e@ == BlobErrorModel::LockExpired && final(self)@ == old(
                    self,
                )@
            },
    {
        let nslots = self.slots.len();
        if (file_id as usize) < nslots {
            let slot = &self.slots[file_id as usize];
            match &slot.lease {
                Some(l) => {
                    if l.expires_at > now {
                        let new_lease = Lease {
                            holder: l.holder.clone(),
                            generation: l.generation,
                            expires_at: Self::expiry(now, self.config.lock_timeout),
                        };
                        let exists = slot.exists;
                        let length = slot.length;
                        self.slots.set(
                            file_id as usize,
                            Slot { exists, length, lease: Some(new_lease) },
                        );
                        proof {
                            assert(self@.slots =~= old(self)@.slots.update(
                                file_id as int,
                                SlotModel {
                                    lease: Some(
                                        LeaseModel {
                                            expires_at: expiry_time(
                                                now,
                                                old(self)@.config.lock_timeout,
                                            ),
                                            ..old(self)@.slots[file_id as int].lease->0
                                        },
                                    ),
                                    ..old(self)@.slots[file_id as int]
                                },
                            ));
                            assert(self@ =~= (StorageModel { slots: self@.slots, ..old(self)@ }));
                        }
                        return Ok(());
                    }
                },
                None => {},
            }
        }
        Err(BlobError::LockExpired)
    }

    /// Saturating lease expiry computation.
    fn expiry(now: u64, timeout: u64) -> (r: u64)
        ensures
            r == expiry_time(now, timeout),
    {
        match now.checked_add(timeout) {
            Some(t) => t,
            None => u64::MAX,
        }
    }

    /// Whether the counters still have headroom for another operation.
    pub fn has_headroom(&self) -> (r: bool)
        ensures
            r == counters_ok(self@),
    {
        let w = self.waiters.len();
        match self.next_generation.checked_add(w as u64) {
            Some(g) => g < u64::MAX && self.next_ticket < u64::MAX,
            None => false,
        }
    }
}

// ------------------------------------------------------------------
// Allocation, spec level
// ------------------------------------------------------------------

/// The lease a fresh allocation installs.
pub open spec fn lease_for(m: StorageModel, node_id: Seq<char>, now: u64) -> LeaseModel {
    LeaseModel {
        holder: node_id,
        generation: m.next_generation,
        expires_at: expiry_time(now, m.config.lock_timeout),
    }
}

/// Registry after registering `key` with state `st`: the existing entry is
/// replaced in place, or a new one is appended.
pub open spec fn reg_upsert(
    reg: Seq<RegEntryModel>,
    key: Seq<char>,
    st: KeyState,
) -> Seq<RegEntryModel> {
    if reg_has(reg, key) {
        reg.update(reg_idx(reg, key), RegEntryModel { key, state: st })
    } else {
        reg.push(RegEntryModel { key, state: st })
    }
}

/// Registry after marking a whole batch pending, entry by entry in batch
/// order, at consecutive offsets from `base`.
pub open spec fn reg_after_alloc(
    reg: Seq<RegEntryModel>,
    entries: Seq<EntryModel>,
    file_id: u32,
    base: u64,
    generation: u64,
) -> Seq<RegEntryModel>
    decreases entries.len(),
{
    if entries.len() == 0 {
        reg
    } else {
        let e = entries[0];
        reg_after_alloc(
            reg_upsert(
                reg,
                e.key,
                KeyState::Pending { file_id, offset: base, num_bytes: e.num_bytes, generation },
            ),
            entries.drop_first(),
            file_id,
            (base + e.num_bytes) as u64,
            generation,
        )
    }
}

/// The allocation result handed to the caller: the batch's base offset in
/// the chosen slot, and whether the backing file must still be created.
pub open spec fn alloc_offset(m: StorageModel, slot_id: int) -> OffsetModel {
    OffsetModel {
        file_id: slot_id as u32,
        byte_offset: m.slots[slot_id].length,
        needs_creation: !m.slots[slot_id].exists,
        file_name: file_name_spec(slot_id as u32),
    }
}

/// The atomic reservation step of `create_and_lock`: advance the slot's
/// length by the batch total, install a fresh lease, and mark every batch
/// key pending at its assigned offset.
pub open spec fn model_alloc(
    m: StorageModel,
    slot_id: int,
    entries: Seq<EntryModel>,
    node_id: Seq<char>,
    now: u64,
) -> StorageModel {
    let base = m.slots[slot_id].length;
    StorageModel {
        slots: m.slots.update(
            slot_id,
            SlotModel {
                exists: true,
                length: (base + batch_total(entries)) as u64,
                lease: Some(lease_for(m, node_id, now)),
            },
        ),
        registry: reg_after_alloc(m.registry, entries, slot_id as u32, base, m.next_generation),
        next_generation: (m.next_generation + 1) as u64,
        ..m
    }
}

// ------------------------------------------------------------------
// Small lemmas
// ------------------------------------------------------------------

proof fn lemma_skip_step<A>(s: Seq<A>, i: int)
    requires
        0 <= i < s.len(),
    ensures
        s.skip(i).len() == s.len() - i,
        s.skip(i)[0] == s[i],
        s.skip(i).drop_first() =~= s.skip(i + 1),
{
}

pub proof fn lemma_batch_total_nonneg(entries: Seq<EntryModel>)
    ensures
        batch_total(entries) >= 0,
    decreases entries.len(),
{
    if entries.len() > 0 {
        lemma_batch_total_nonneg(entries.drop_first());
    }
}

/// In a registry with unique keys, the entry found by a scan is the entry
/// the spec-level search denotes.
pub proof fn lemma_found_key(reg: Seq<RegEntryModel>, key: Seq<char>, j: int)
    requires
        forall|a: int, b: int| 0 <= a < b < reg.len() ==> reg[a].key != reg[b].key,
        0 <= j < reg.len(),
        reg[j].key == key,
    ensures
        reg_has(reg, key),
        reg_idx(reg, key) == j,
        reg_state(reg, key) == Some(reg[j].state),
{
    assert(reg_has(reg, key)) by {
        assert(reg[j].key == key);
    }
    let ri = reg_idx(reg, key);
    assert(0 <= ri < reg.len() && reg[ri].key == key);
    if ri < j {
        assert(reg[ri].key != reg[j].key);
    } else if ri > j {
        assert(reg[j].key != reg[ri].key);
    }
}

// ------------------------------------------------------------------
// Validation and slot selection, exec level
// ------------------------------------------------------------------

impl BlobStorage {
    /// Total bytes of a batch; `None` when it exceeds the address space.
    fn sum_batch(entries: &Vec<BlobEntry>) -> (r: Option<u64>)
        ensures
            match r {
                Some(t) => t as int == batch_total(batch_model(entries@)),
                None => batch_total(batch_model(entries@)) > u64::MAX,
            },
    {
        let ghost em = batch_model(entries@);
        let n = entries.len();
        let mut acc: u64 = 0;
        let mut i: usize = 0;
        proof {
            assert(em.skip(0) =~= em);
        }
        while i < n
            invariant
                n == entries@.len(),
                em == batch_model(entries@),
                i <= n,
                batch_total(em) == acc + batch_total(em.skip(i as int)),
            decreases n - i,
        {
            proof {
                lemma_skip_step(em, i as int);
                lemma_batch_total_nonneg(em.skip(i as int + 1));
                assert(em.skip(i as int)[0] == em[i as int]);
            }
            let nb = entries[i].num_bytes;
            match acc.checked_add(nb) {
                Some(a2) => {
                    acc = a2;
                },
                None => {
                    return None;
                },
            }
            i = i + 1;
        }
        proof {
            assert(em.skip(n as int) =~= Seq::<EntryModel>::empty());
        }
        Some(acc)
    }

    /// Whether `key` is frozen (committed) or reserved under a live lease.
    fn key_unavailable_exec(&self, key: &String, now: u64) -> (r: bool)
        requires
            self.wf(),
        ensures
            r == key_unavailable(self@, key@, now),
    {
        let n = self.registry.len();
        let mut j: usize = 0;
        while j < n
            invariant
                self.wf(),
                n == self.registry@.len(),
                j <= n,
                forall|k: int| 0 <= k < j as int ==> self@.registry[k].key != key@,
            decreases n - j,
        {
            if self.registry[j].key == *key {
                proof {
                    lemma_found_key(self@.registry, key@, j as int);
                }
                match self.registry[j].state {
                    KeyState::Committed { .. } => {
                        return true;
                    },
                    KeyState::Pending { file_id, generation, .. } => {
                        proof {
                            assert((file_id as int) < self@.slots.len());
                        }
                        let slot = &self.slots[file_id as usize];
                        match &slot.lease {
                            Some(l) => {
                                return l.generation == generation && l.expires_at > now;
                            },
                            None => {
                                return false;
                            },
                        }
                    },
                }
            }
            j = j + 1;
        }
        proof {
            assert(!reg_has(self@.registry, key@));
        }
        false
    }

    /// Validates a batch against the registry and the reserved-name
    /// policy: duplicate keys fail first, then each entry in batch order
    /// is checked to be neither prohibited nor already taken.
    #[verifier::loop_isolation(false)]
    pub fn check_all_available(&self, entries: &Vec<BlobEntry>, now: u64) -> (r: Result<
        (),
        BlobError,
    >)
        requires
            self.wf(),
        ensures
            match r {
                Ok(()) => validate(self@, batch_model(entries@), now) is None,
                Err(e) => validate(self@, batch_model(entries@), now) == Some(e@),
            },
    {
        let ghost em = batch_model(entries@);
        let n = entries.len();
        // duplicate keys, checked before anything else
        let mut j: usize = 0;
        while j < n
            invariant
                n == entries@.len(),
                em == batch_model(entries@),
                j <= n,
                forall|a: int, b: int| 0 <= a < b < j as int ==> em[a].key != em[b].key,
            decreases n - j,
        {
            let mut a: usize = 0;
            while a < j
                invariant
                    n == entries@.len(),
                    em == batch_model(entries@),
                    a <= j < n,
                    forall|k: int| 0 <= k < a as int ==> em[k].key != em[j as int].key,
                decreases j - a,
            {
                if entries[a].key == entries[j].key {
                    proof {
                        assert(has_dup(em)) by {
                            assert((a as int) < (j as int) && (j as int) < em.len());
                            assert(em[a as int].key == em[j as int].key);
                        }
                    }
                    return Err(BlobError::DuplicateKeys);
                }
                a = a + 1;
            }
            j = j + 1;
        }
        proof {
            assert(!has_dup(em)) by {
                if has_dup(em) {
                    let (x, y) = choose|x: int, y: int|
                        0 <= x < y < em.len() && em[x].key == em[y].key;
                    assert(em[x].key != em[y].key);
                }
            }
        }
        // per-entry checks, in batch order
        let mut i: usize = 0;
        proof {
            assert(em.skip(0) =~= em);
        }
        while i < n
            invariant
                self.wf(),
                n == entries@.len(),
                em == batch_model(entries@),
                i <= n,
                first_invalid(self@, em, now) == first_invalid(self@, em.skip(i as int), now),
            decreases n - i,
        {
            proof {
                lemma_skip_step(em, i as int);
                assert(em.skip(i as int)[0] == em[i as int]);
            }
            // reserved-name policy
            let np = self.config.prohibited_keys.len();
            let mut p: usize = 0;
            while p < np
                invariant
                    self.wf(),
                    n == entries@.len(),
                    em == batch_model(entries@),
                    i < n,
                    np == self.config.prohibited_keys@.len(),
                    p <= np,
                    forall|k: int|
                        0 <= k < p as int ==> self@.config.prohibited_keys[k] != em[i as int].key,
                decreases np - p,
            {
                if self.config.prohibited_keys[p] == entries[i].key {
                    proof {
                        assert(is_prohibited(self@.config, em[i as int].key)) by {
                            assert(self@.config.prohibited_keys[p as int] == em[i as int].key);
                        }
                    }
                    proof {
                        assert(first_invalid(self@, em.skip(i as int), now) == Some(
                            BlobErrorModel::ProhibitedKey(em[i as int].key),
                        ));
                        assert(validate(self@, em, now) == Some(
                            BlobErrorModel::ProhibitedKey(em[i as int].key),
                        ));
                    }
                    return Err(BlobError::ProhibitedKey(entries[i].key.clone()));
                }
                p = p + 1;
            }
            proof {
                assert(!is_prohibited(self@.config, em[i as int].key));
            }
            if self.key_unavailable_exec(&entries[i].key, now) {
                proof {
                    assert(first_invalid(self@, em.skip(i as int), now) == Some(
                        BlobErrorModel::AlreadyExists(em[i as int].key),
                    ));
                    assert(validate(self@, em, now) == Some(
                        BlobErrorModel::AlreadyExists(em[i as int].key),
                    ));
                }
                return Err(BlobError::AlreadyExists(entries[i].key.clone()));
            }
            i = i + 1;
        }
        proof {
            assert(em.skip(n as int) =~= Seq::<EntryModel>::empty());
        }
        Ok(())
    }

    /// The lowest slot with no live lease, if any.
    fn find_free_slot(&self, now: u64) -> (r: Option<u32>)
        requires
            self.wf(),
        ensures
            match r {
                Some(s) => first_free(self@, now) == Some(s as int) && (s as int)
                    < self@.slots.len() && !live_lease(self@.slots[s as int], now),
                None => first_free(self@, now) is None,
            },
    {
        let n = self.slots.len();
        let mut i: usize = 0;
        while i < n
            invariant
                self.wf(),
                n == self.slots@.len(),
                i <= n,
                first_free(self@, now) == first_free_from(self@, now, i as int),
            decreases n - i,
        {
            let live = match &self.slots[i].lease {
                Some(l) => l.expires_at > now,
                None => false,
            };
            if !live {
                return Some(i as u32);
            }
            i = i + 1;
        }
        None
    }
}

// ------------------------------------------------------------------
// Registry update, exec level
// ------------------------------------------------------------------

/// Replaces or appends one registration, keeping keys unique.
fn upsert_entry(reg: &mut Vec<RegEntry>, key: &String, st: KeyState)
    requires
        forall|a: int, b: int|
            0 <= a < b < old(reg)@.len() ==> reg_model(old(reg)@)[a].key != reg_model(
                old(reg)@,
            )[b].key,
    ensures
        reg_model(final(reg)@) == reg_upsert(reg_model(old(reg)@), key@, st),
        forall|a: int, b: int|
            0 <= a < b < final(reg)@.len() ==> reg_model(final(reg)@)[a].key != reg_model(
                final(reg)@,
            )[b].key,
{
    let n = reg.len();
    let mut j: usize = 0;
    while j < n
        invariant
            n == reg@.len(),
            reg@ == old(reg)@,
            j <= n,
            forall|k: int| 0 <= k < j as int ==> reg_model(reg@)[k].key != key@,
            forall|a: int, b: int|
                0 <= a < b < reg@.len() ==> reg_model(reg@)[a].key != reg_model(reg@)[b].key,
        decreases n - j,
    {
        if reg[j].key == *key {
            proof {
                lemma_found_key(reg_model(reg@), key@, j as int);
            }
            reg.set(j, RegEntry { key: key.clone(), state: st });
            proof {
                assert(reg_model(reg@) =~= reg_upsert(reg_model(old(reg)@), key@, st));
                assert forall|a: int, b: int|
                    0 <= a < b < reg@.len() implies reg_model(reg@)[a].key != reg_model(
                    reg@,
                )[b].key by {
                    assert(reg_model(reg@)[a].key == reg_model(old(reg)@)[a].key);
                    assert(reg_model(reg@)[b].key == reg_model(old(reg)@)[b].key);
                }
            }
            return;
        }
        j = j + 1;
    }
    proof {
        assert(!reg_has(reg_model(reg@), key@));
    }
    reg.push(RegEntry { key: key.clone(), state: st });
    proof {
        assert(reg_model(reg@) =~= reg_upsert(reg_model(old(reg)@), key@, st));
        assert forall|a: int, b: int|
            0 <= a < b < reg@.len() implies reg_model(reg@)[a].key != reg_model(reg@)[b].key by {
            if b < reg@.len() - 1 {
                assert(reg_model(reg@)[a].key == reg_model(old(reg)@)[a].key);
                assert(reg_model(reg@)[b].key == reg_model(old(reg)@)[b].key);
            } else {
                assert(reg_model(reg@)[a].key == reg_model(old(reg)@)[a].key);
                assert(reg_model(old(reg)@)[a].key != key@);
            }
        }
    }
}


// ------------------------------------------------------------------
// The atomic reservation step
// ------------------------------------------------------------------

impl BlobStorage {
    /// The atomic reservation of `create_and_lock` step 3: advance the
    /// slot's length by the batch total, install a fresh lease for
    /// `node_id`, and mark every batch key pending at its assigned offset.
    /// Offsets are handed out consecutively from the slot's old length and
    /// are never reused afterwards.
    #[verifier::loop_isolation(false)]
    fn allocate_on_slot(
        &mut self,
        slot_id: u32,
        entries: &Vec<BlobEntry>,
        node_id: String,
        now: u64,
        total: u64,
    ) -> (off: BlobOffset)
        requires
            old(self).wf(),
            validate(old(self)@, batch_model(entries@), now) is None,
            (slot_id as int) < old(self)@.slots.len(),
            !live_lease(old(self)@.slots[slot_id as int], now),
            total as int == batch_total(batch_model(entries@)),
            old(self)@.slots[slot_id as int].length + total <= u64::MAX,
            old(self)@.next_generation < u64::MAX,
        ensures
            final(self).wf(),
            final(self)@ == model_alloc(
                old(self)@,
                slot_id as int,
                batch_model(entries@),
                node_id@,
                now,
            ),
            off@ == alloc_offset(old(self)@, slot_id as int),
    {
        let ghost m0 = self@;
        let ghost em = batch_model(entries@);
        let ghost nid = node_id@;
        let base = self.slots[slot_id as usize].length;
        let needs_creation = !self.slots[slot_id as usize].exists;
        let generation = self.next_generation;
        self.next_generation = generation + 1;
        let expires_at = Self::expiry(now, self.config.lock_timeout);
        self.slots.set(
            slot_id as usize,
            Slot {
                exists: true,
                length: base + total,
                lease: Some(Lease { holder: node_id, generation, expires_at }),
            },
        );
        let ghost slots1 = m0.slots.update(
            slot_id as int,
            SlotModel {
                exists: true,
                length: (base + total) as u64,
                lease: Some(lease_for(m0, nid, now)),
            },
        );
        proof {
            assert(self@.slots =~= slots1);
        }
        let n = entries.len();
        let mut i: usize = 0;
        let mut cur: u64 = base;
        proof {
            assert(em.skip(0) =~= em);
            lemma_batch_total_nonneg(em);
        }
        while i < n
            invariant
                i <= n,
                cur as int == base + batch_total(em) - batch_total(em.skip(i as int)),
                cur >= base,
                self@.slots == slots1,
                self@.config == m0.config,
                self@.waiters == m0.waiters,
                self@.grants == m0.grants,
                self@.next_generation == generation + 1,
                self@.next_ticket == m0.next_ticket,
                reg_after_alloc(m0.registry, em, slot_id, base, generation) == reg_after_alloc(
                    self@.registry,
                    em.skip(i as int),
                    slot_id,
                    cur,
                    generation,
                ),
                forall|a: int, b: int|
                    0 <= a < b < self@.registry.len() ==> self@.registry[a].key != self@.registry[
                        b
                    ].key,
                forall|k: int|
                    0 <= k < self@.registry.len() ==> {
                        let st = #[trigger] self@.registry[k].state;
                        &&& (state_file_id(st) as int) < self@.slots.len()
                        &&& state_offset(st) + state_num_bytes(st) <= self@.slots[state_file_id(
                            st,
                        ) as int].length
                    },
                forall|k: int|
                    0 <= k < self@.registry.len() && state_file_id(
                        #[trigger] self@.registry[k].state,
                    ) == slot_id ==> state_offset(self@.registry[k].state) + state_num_bytes(
                        self@.registry[k].state,
                    ) <= cur,
                forall|a: int, b: int|
                    0 <= a < self@.registry.len() && 0 <= b < self@.registry.len() && a != b
                        && state_file_id(#[trigger] self@.registry[a].state) == state_file_id(
                        #[trigger] self@.registry[b].state,
                    ) ==> ranges_disjoint(
                        state_offset(self@.registry[a].state),
                        state_num_bytes(self@.registry[a].state),
                        state_offset(self@.registry[b].state),
                        state_num_bytes(self@.registry[b].state),
                    ),
                forall|k: int|
                    0 <= k < self@.registry.len() ==> ((
                    #[trigger] self@.registry[k].state) matches KeyState::Pending {
                        generation: g,
                        ..
                    } ==> g < self@.next_generation),
            decreases n - i,
        {
            proof {
                lemma_skip_step(em, i as int);
                lemma_batch_total_nonneg(em.skip(i as int + 1));
                assert(em.skip(i as int)[0] == em[i as int]);
            }
            let nb = entries[i].num_bytes;
            proof {
                assert(batch_total(em.skip(i as int)) == nb + batch_total(em.skip(i as int + 1)));
                assert(cur + nb <= base + total);
            }
            let st = KeyState::Pending { file_id: slot_id, offset: cur, num_bytes: nb, generation };
            let ghost pre_reg = self@.registry;
            upsert_entry(&mut self.registry, &entries[i].key, st);
            proof {
                let new_entry = RegEntryModel { key: em[i as int].key, state: st };
                assert(self@.registry == reg_upsert(pre_reg, em[i as int].key, st));
                assert forall|k: int| 0 <= k < self@.registry.len() implies (self@.registry[k]
                    == new_entry || (0 <= k < pre_reg.len() && self@.registry[k]
                    == pre_reg[k])) by {
                    if reg_has(pre_reg, em[i as int].key) {
                        let ui = reg_idx(pre_reg, em[i as int].key);
                        assert(0 <= ui < pre_reg.len() && pre_reg[ui].key == em[i as int].key);
                    }
                }
                // every entry of the new registry has a valid, slot-bounded range
                assert forall|k: int| 0 <= k < self@.registry.len() implies {
                    let stk = #[trigger] self@.registry[k].state;
                    &&& (state_file_id(stk) as int) < self@.slots.len()
                    &&& state_offset(stk) + state_num_bytes(stk) <= self@.slots[state_file_id(
                        stk,
                    ) as int].length
                } by {
                    if self@.registry[k] == new_entry {
                        assert(self@.slots[slot_id as int].length == base + total);
                    }
                }
                // entries in this slot end at or before the running offset
                assert forall|k: int|
                    0 <= k < self@.registry.len() && state_file_id(
                        #[trigger] self@.registry[k].state,
                    ) == slot_id implies state_offset(self@.registry[k].state) + state_num_bytes(
                    self@.registry[k].state,
                ) <= cur + nb by {}
                // pairwise disjointness
                assert forall|a: int, b: int|
                    0 <= a < self@.registry.len() && 0 <= b < self@.registry.len() && a != b
                        && state_file_id(#[trigger] self@.registry[a].state) == state_file_id(
                        #[trigger] self@.registry[b].state,
                    ) implies ranges_disjoint(
                    state_offset(self@.registry[a].state),
                    state_num_bytes(self@.registry[a].state),
                    state_offset(self@.registry[b].state),
                    state_num_bytes(self@.registry[b].state),
                ) by {
                    if self@.registry[a] == new_entry && self@.registry[b] == new_entry {
                        assert(self@.registry[a].key == self@.registry[b].key);
                        assert(false);
                    } else if self@.registry[a] == new_entry {
                        assert(state_offset(self@.registry[b].state) + state_num_bytes(
                            self@.registry[b].state,
                        ) <= cur);
                    } else if self@.registry[b] == new_entry {
                        assert(state_offset(self@.registry[a].state) + state_num_bytes(
                            self@.registry[a].state,
                        ) <= cur);
                    }
                }
            }
            cur = cur + nb;
            i = i + 1;
        }
        proof {
            assert(em.skip(n as int) =~= Seq::<EntryModel>::empty());
            assert(self@.registry == reg_after_alloc(m0.registry, em, slot_id, base, generation));
        }
        let off = BlobOffset {
            file_id: slot_id,
            byte_offset: base,
            needs_creation,
            file_name: Self::make_file_name(slot_id),
        };
        proof {
            assert(self@ =~= model_alloc(m0, slot_id as int, em, nid, now));
            assert(off@ == alloc_offset(m0, slot_id as int));
        }
        off
    }
}


// ------------------------------------------------------------------
// The public allocation operation
// ------------------------------------------------------------------

impl BlobStorage {
    /// Asks for space for a batch of keyed entries. The batch is validated
    /// first; a failure aborts with no side effects. Then, if nobody is
    /// queued and a slot is free, the reservation happens at once and the
    /// caller holds the slot's fresh lease; otherwise the request joins
    /// the FIFO queue and its ticket must be polled via `take_grant`.
    pub fn create_and_lock(&mut self, entries: Vec<BlobEntry>, node_id: String, now: u64) -> (r:
        Result<LockOutcome, BlobError>)
        requires
            old(self).wf(),
            counters_ok(old(self)@),
        ensures
            final(self).wf(),
            final(self)@.slots.len() == old(self)@.slots.len(),
            forall|k: int|
                0 <= k < old(self)@.slots.len() ==> final(self)@.slots[k].length >= old(
                    self,
                )@.slots[k].length,
            match validate(old(self)@, batch_model(entries@), now) {
                Some(e) => r matches Err(err) && err@ == e && final(self)@ == old(self)@,
                None => if old(self)@.waiters.len() == 0 && first_free(old(self)@, now) is Some {
                    let s = first_free(old(self)@, now)->0;
                    if old(self)@.slots[s].length + batch_total(batch_model(entries@))
                        <= u64::MAX {
                        &&& r matches Ok(o) && o@ matches LockOutcomeModel::Granted(off) && off
                            == alloc_offset(old(self)@, s)
                        &&& final(self)@ == model_alloc(
                            old(self)@,
                            s,
                            batch_model(entries@),
                            node_id@,
                            now,
                        )
                    } else {
                        r matches Err(err) && err@ == BlobErrorModel::OffsetOverflow
                            && final(self)@ == old(self)@
                    }
                } else {
                    &&& r matches Ok(o) && o@ == LockOutcomeModel::Queued(old(self)@.next_ticket)
                    &&& final(self)@ == (StorageModel {
                        waiters: old(self)@.waiters.push(
                            WaiterModel {
                                ticket: old(self)@.next_ticket,
                                node_id: node_id@,
                                entries: batch_model(entries@),
                            },
                        ),
                        next_ticket: (old(self)@.next_ticket + 1) as u64,
                        ..old(self)@
                    })
                },
            },
    {
        let ghost em = batch_model(entries@);
        match self.check_all_available(&entries, now) {
            Err(e) => {
                return Err(e);
            },
            Ok(()) => {},
        }
        if self.waiters.len() == 0 {
            match self.find_free_slot(now) {
                Some(s) => {
                    match Self::sum_batch(&entries) {
                        Some(total) => {
                            let len = self.slots[s as usize].length;
                            if total <= u64::MAX - len {
                                proof {
                                    lemma_alloc_lengths(self@, s as int, em, node_id@, now);
                                }
                                let off = self.allocate_on_slot(s, &entries, node_id, now, total);
                                return Ok(LockOutcome::Granted(off));
                            } else {
                                return Err(BlobError::OffsetOverflow);
                            }
                        },
                        None => {
                            proof {
                                lemma_batch_total_nonneg(em);
                            }
                            return Err(BlobError::OffsetOverflow);
                        },
                    }
                },
                None => {},
            }
        }
        let ticket = self.next_ticket;
        self.next_ticket = ticket + 1;
        let ghost nid = node_id@;
        self.waiters.push(Waiter { ticket, node_id, entries });
        proof {
            assert(self@.waiters =~= old(self)@.waiters.push(
                WaiterModel { ticket, node_id: nid, entries: em },
            ));
            assert(self@ =~= (StorageModel {
                waiters: old(self)@.waiters.push(WaiterModel { ticket, node_id: nid, entries: em }),
                next_ticket: (old(self)@.next_ticket + 1) as u64,
                ..old(self)@
            }));
        }
        Ok(LockOutcome::Queued(ticket))
    }
}


// ------------------------------------------------------------------
// Unlock, expiry and hand-off, spec level
// ------------------------------------------------------------------

/// The committed form of one registration, when its generation matches.
pub open spec fn promote_state(st: KeyState, generation: u64) -> KeyState {
    match st {
        KeyState::Pending { file_id, offset, num_bytes, generation: g } => if g == generation {
            KeyState::Committed { file_id, offset, num_bytes }
        } else {
            st
        },
        KeyState::Committed { .. } => st,
    }
}

/// Registry after promoting every key pending under `generation`.
pub open spec fn promote_reg(reg: Seq<RegEntryModel>, generation: u64) -> Seq<RegEntryModel> {
    Seq::new(
        reg.len(),
        |i: int| RegEntryModel { key: reg[i].key, state: promote_state(reg[i].state, generation) },
    )
}

/// State after a successful explicit unlock of `slot_id`: every key
/// pending under the slot's lease becomes committed, and the lease is
/// destroyed.
pub open spec fn model_unlock(m: StorageModel, slot_id: int) -> StorageModel {
    let generation = m.slots[slot_id].lease->0.generation;
    StorageModel {
        slots: m.slots.update(slot_id, SlotModel { lease: None, ..m.slots[slot_id] }),
        registry: promote_reg(m.registry, generation),
        ..m
    }
}

/// State after a cleaner pass at `now`: every expired lease is destroyed;
/// the registry is not touched, so the orphaned pending keys stay exactly
/// as they are.
pub open spec fn model_clean(m: StorageModel, now: u64) -> StorageModel {
    StorageModel {
        slots: Seq::new(
            m.slots.len(),
            |i: int|
                if live_lease(m.slots[i], now) {
                    m.slots[i]
                } else {
                    SlotModel { lease: None, ..m.slots[i] }
                },
        ),
        ..m
    }
}

/// The FIFO hand-off loop run after a slot frees: while somebody waits
/// and a slot is free, the head waiter's batch is validated again and
/// granted the lowest free slot (or refused), and its outcome is recorded
/// for polling. Later waiters are never served before earlier ones.
pub open spec fn model_handoff(m: StorageModel, now: u64) -> StorageModel
    decreases m.waiters.len(),
{
    if m.waiters.len() == 0 || first_free(m, now) is None {
        m
    } else {
        let s = first_free(m, now)->0;
        let w = m.waiters[0];
        let m1 = StorageModel { waiters: m.waiters.drop_first(), ..m };
        match validate(m, w.entries, now) {
            Some(e) => model_handoff(
                StorageModel {
                    grants: m1.grants.push(GrantModel { ticket: w.ticket, result: Err(e) }),
                    ..m1
                },
                now,
            ),
            None => if m.slots[s].length + batch_total(w.entries) <= u64::MAX {
                let m2 = model_alloc(m1, s, w.entries, w.node_id, now);
                model_handoff(
                    StorageModel {
                        grants: m2.grants.push(
                            GrantModel { ticket: w.ticket, result: Ok(alloc_offset(m1, s)) },
                        ),
                        ..m2
                    },
                    now,
                )
            } else {
                model_handoff(
                    StorageModel {
                        grants: m1.grants.push(
                            GrantModel {
                                ticket: w.ticket,
                                result: Err(BlobErrorModel::OffsetOverflow),
                            },
                        ),
                        ..m1
                    },
                    now,
                )
            },
        }
    }
}

/// Whether some decided grant carries `ticket`.
pub open spec fn grant_has(gs: Seq<GrantModel>, ticket: u64) -> bool {
    exists|i: int| 0 <= i < gs.len() && gs[i].ticket == ticket
}

/// Index of the decided grant carrying `ticket` (tickets are unique).
pub open spec fn grant_idx(gs: Seq<GrantModel>, ticket: u64) -> int {
    choose|i: int| 0 <= i < gs.len() && gs[i].ticket == ticket
}

// ------------------------------------------------------------------
// Congruence lemmas: validation ignores the queue and the counters
// ------------------------------------------------------------------

pub proof fn lemma_first_invalid_same(
    m1: StorageModel,
    m2: StorageModel,
    entries: Seq<EntryModel>,
    now: u64,
)
    requires
        m1.config == m2.config,
        m1.slots == m2.slots,
        m1.registry == m2.registry,
    ensures
        first_invalid(m1, entries, now) == first_invalid(m2, entries, now),
    decreases entries.len(),
{
    if entries.len() > 0 {
        lemma_first_invalid_same(m1, m2, entries.drop_first(), now);
    }
}

pub proof fn lemma_validate_same(
    m1: StorageModel,
    m2: StorageModel,
    entries: Seq<EntryModel>,
    now: u64,
)
    requires
        m1.config == m2.config,
        m1.slots == m2.slots,
        m1.registry == m2.registry,
    ensures
        validate(m1, entries, now) == validate(m2, entries, now),
{
    lemma_first_invalid_same(m1, m2, entries, now);
}

/// In a grant table with unique tickets, the grant found by a scan is the
/// grant the spec-level search denotes.
proof fn lemma_found_grant(gs: Seq<GrantModel>, ticket: u64, j: int)
    requires
        forall|a: int, b: int| 0 <= a < b < gs.len() ==> gs[a].ticket != gs[b].ticket,
        0 <= j < gs.len(),
        gs[j].ticket == ticket,
    ensures
        grant_has(gs, ticket),
        grant_idx(gs, ticket) == j,
{
    assert(grant_has(gs, ticket)) by {
        assert(gs[j].ticket == ticket);
    }
    let gi = grant_idx(gs, ticket);
    assert(0 <= gi < gs.len() && gs[gi].ticket == ticket);
    if gi < j {
        assert(gs[gi].ticket != gs[j].ticket);
    } else if gi > j {
        assert(gs[j].ticket != gs[gi].ticket);
    }
}

// ------------------------------------------------------------------
// Registry promotion, exec level
// ------------------------------------------------------------------

/// Promotes every key pending under `generation` to committed, in place.
#[verifier::loop_isolation(false)]
fn promote_registry(reg: &mut Vec<RegEntry>, generation: u64)
    ensures
        reg_model(final(reg)@) == promote_reg(reg_model(old(reg)@), generation),
{
    let n = reg.len();
    let mut i: usize = 0;
    while i < n
        invariant
            n == reg@.len(),
            i <= n,
            forall|k: int|
                0 <= k < i as int ==> reg_model(reg@)[k] == promote_reg(
                    reg_model(old(reg)@),
                    generation,
                )[k],
            forall|k: int| i as int <= k < n ==> reg@[k] == old(reg)@[k],
        decreases n - i,
    {
        let ghost pre = reg@;
        match reg[i].state {
            KeyState::Pending { file_id, offset, num_bytes, generation: g } => {
                if g == generation {
                    let key = reg[i].key.clone();
                    reg.set(
                        i,
                        RegEntry { key, state: KeyState::Committed { file_id, offset, num_bytes } },
                    );
                }
            },
            KeyState::Committed { .. } => {},
        }
        proof {
            assert forall|k: int| 0 <= k < i as int implies reg_model(reg@)[k] == reg_model(
                pre,
            )[k] by {
                assert(reg@[k] == pre[k]);
            }
            assert(reg@[i as int].key@ == old(reg)@[i as int].key@);
            assert(reg_model(reg@)[i as int] == promote_reg(
                reg_model(old(reg)@),
                generation,
            )[i as int]);
            assert forall|k: int| i as int + 1 <= k < n implies reg@[k] == old(reg)@[k] by {
                assert(reg@[k] == pre[k]);
            }
            assert forall|k: int| 0 <= k < i as int + 1 implies reg_model(reg@)[k] == promote_reg(
                reg_model(old(reg)@),
                generation,
            )[k] by {
                if k < i as int {
                    assert(reg_model(reg@)[k] == reg_model(pre)[k]);
                }
            }
        }
        i = i + 1;
    }
    proof {
        assert(reg_model(reg@) =~= promote_reg(reg_model(old(reg)@), generation));
    }
}

// ------------------------------------------------------------------
// Unlock, expiry and hand-off, exec level
// ------------------------------------------------------------------

impl BlobStorage {
    /// Runs the FIFO hand-off loop: serves queued waiters in arrival
    /// order while a slot is free, recording each outcome.
    #[verifier::loop_isolation(false)]
    fn handoff(&mut self, now: u64)
        requires
            old(self).wf(),
            old(self)@.next_generation + old(self)@.waiters.len() + 1 <= u64::MAX,
        ensures
            final(self).wf(),
            final(self)@ == model_handoff(old(self)@, now),
    {
        let ghost m0 = self@;
        loop
            invariant
                self.wf(),
                self@.next_generation + self@.waiters.len() + 1 <= u64::MAX,
                model_handoff(m0, now) == model_handoff(self@, now),
            decreases self@.waiters.len(),
        {
            if self.waiters.len() == 0 {
                break ;
            }
            let s = match self.find_free_slot(now) {
                Some(s) => s,
                None => {
                    break ;
                },
            };
            let vres = self.check_all_available(&self.waiters[0].entries, now);
            let ghost mp = self@;
            let w = self.waiters.remove(0);
            let Waiter { ticket, node_id, entries } = w;
            let ghost m1 = StorageModel { waiters: mp.waiters.drop_first(), ..mp };
            proof {
                assert(self@.waiters =~= mp.waiters.drop_first());
                assert(self@ =~= m1);
                assert(mp.waiters[0].entries == batch_model(entries@));
                assert(mp.waiters[0].ticket == ticket);
                assert(mp.waiters[0].node_id == node_id@);
            }
            match vres {
                Err(e) => {
                    let ghost ge = e@;
                    self.grants.push(Grant { ticket, result: Err(e) });
                    proof {
                        assert(self@.grants =~= m1.grants.push(
                            GrantModel { ticket, result: Err(ge) },
                        ));
                        assert(self@ =~= (StorageModel {
                            grants: m1.grants.push(GrantModel { ticket, result: Err(ge) }),
                            ..m1
                        }));
                        assert(model_handoff(mp, now) == model_handoff(self@, now));
                    }
                },
                Ok(()) => {
                    proof {
                        lemma_validate_same(mp, self@, batch_model(entries@), now);
                    }
                    match Self::sum_batch(&entries) {
                        Some(total) => {
                            let len = self.slots[s as usize].length;
                            if total <= u64::MAX - len {
                                let off = self.allocate_on_slot(s, &entries, node_id, now, total);
                                let ghost goff = off@;
                                self.grants.push(Grant { ticket, result: Ok(off) });
                                proof {
                                    let m2 = model_alloc(
                                        m1,
                                        s as int,
                                        batch_model(entries@),
                                        node_id@,
                                        now,
                                    );
                                    assert(self@.grants =~= m2.grants.push(
                                        GrantModel { ticket, result: Ok(goff) },
                                    ));
                                    assert(self@ =~= (StorageModel {
                                        grants: m2.grants.push(
                                            GrantModel { ticket, result: Ok(goff) },
                                        ),
                                        ..m2
                                    }));
                                    assert(model_handoff(mp, now) == model_handoff(self@, now));
                                }
                            } else {
                                self.grants.push(
                                    Grant { ticket, result: Err(BlobError::OffsetOverflow) },
                                );
                                proof {
                                    assert(self@.grants =~= m1.grants.push(
                                        GrantModel {
                                            ticket,
                                            result: Err(BlobErrorModel::OffsetOverflow),
                                        },
                                    ));
                                    assert(self@ =~= (StorageModel {
                                        grants: m1.grants.push(
                                            GrantModel {
                                                ticket,
                                                result: Err(BlobErrorModel::OffsetOverflow),
                                            },
                                        ),
                                        ..m1
                                    }));
                                    assert(model_handoff(mp, now) == model_handoff(self@, now));
                                }
                            }
                        },
                        None => {
                            proof {
                                lemma_batch_total_nonneg(batch_model(entries@));
                            }
                            self.grants.push(
                                Grant { ticket, result: Err(BlobError::OffsetOverflow) },
                            );
                            proof {
                                assert(self@.grants =~= m1.grants.push(
                                    GrantModel {
                                        ticket,
                                        result: Err(BlobErrorModel::OffsetOverflow),
                                    },
                                ));
                                assert(self@ =~= (StorageModel {
                                    grants: m1.grants.push(
                                        GrantModel {
                                            ticket,
                                            result: Err(BlobErrorModel::OffsetOverflow),
                                        },
                                    ),
                                    ..m1
                                }));
                                assert(model_handoff(mp, now) == model_handoff(self@, now));
                            }
                        },
                    }
                },
            }
        }
    }

    /// Validates the caller's live lease on the slot and, on success,
    /// commits every key pending under it, destroys the lease, and hands
    /// the freed slot to the waiter queue in arrival order.
    pub fn create_unlock(&mut self, file_id: u32, node_id: String, now: u64) -> (r: Result<
        (),
        BlobError,
    >)
        requires
            old(self).wf(),
            counters_ok(old(self)@),
        ensures
            final(self).wf(),
            final(self)@.slots.len() == old(self)@.slots.len(),
            forall|k: int|
                0 <= k < old(self)@.slots.len() ==> final(self)@.slots[k].length >= old(
                    self,
                )@.slots[k].length,
            if !((file_id as int) < old(self)@.slots.len() && live_lease(
                old(self)@.slots[file_id as int],
                now,
            )) {
                r matches Err(e) && e@ == BlobErrorModel::CreateNotLocked
                    && final(self)@ == old(self)@
            } else if old(self)@.slots[file_id as int].lease->0.holder != node_id@ {
                r matches Err(e) && e@ == BlobErrorModel::WrongNode && final(self)@ == old(self)@
            } else {
                r matches Ok(()) && final(self)@ == model_handoff(
                    model_unlock(old(self)@, file_id as int),
                    now,
                )
            },
    {
        let ghost m0 = self@;
        let nslots = self.slots.len();
        if (file_id as usize) >= nslots {
            return Err(BlobError::CreateNotLocked);
        }
        let (generation, holder_matches) = match &self.slots[file_id as usize].lease {
            Some(l) => {
                if l.expires_at > now {
                    (l.generation, l.holder == node_id)
                } else {
                    return Err(BlobError::CreateNotLocked);
                }
            },
            None => {
                return Err(BlobError::CreateNotLocked);
            },
        };
        if !holder_matches {
            return Err(BlobError::WrongNode);
        }
        // promote this lease's pending keys, then destroy the lease
        promote_registry(&mut self.registry, generation);
        let exists = self.slots[file_id as usize].exists;
        let length = self.slots[file_id as usize].length;
        self.slots.set(file_id as usize, Slot { exists, length, lease: None });
        proof {
            assert(self@.registry =~= promote_reg(m0.registry, generation));
            assert(self@.slots =~= m0.slots.update(
                file_id as int,
                SlotModel { lease: None, ..m0.slots[file_id as int] },
            ));
            assert(self@ =~= model_unlock(m0, file_id as int));
            // promotion keeps keys, slots and ranges, so well-formedness holds
            assert forall|k: int| 0 <= k < self@.registry.len() implies {
                let st = #[trigger] self@.registry[k].state;
                &&& state_file_id(st) == state_file_id(m0.registry[k].state)
                &&& state_offset(st) == state_offset(m0.registry[k].state)
                &&& state_num_bytes(st) == state_num_bytes(m0.registry[k].state)
            } by {
                assert(self@.registry[k].state == promote_state(m0.registry[k].state, generation));
            }
            assert(inv(self@));
            assert forall|k: int| 0 <= k < m0.slots.len() implies self@.slots[k].length
                == m0.slots[k].length by {}
            lemma_handoff_lengths(self@, now);
        }
        self.handoff(now);
        Ok(())
    }

    /// The cleaner pass: destroys every lease that has expired by `now`
    /// (leaving the registry untouched, so orphaned pending keys stay as
    /// they are) and hands the freed slots to the waiter queue in arrival
    /// order.
    #[verifier::loop_isolation(false)]
    pub fn clean_expired(&mut self, now: u64)
        requires
            old(self).wf(),
            counters_ok(old(self)@),
        ensures
            final(self).wf(),
            final(self)@ == model_handoff(model_clean(old(self)@, now), now),
            final(self)@.slots.len() == old(self)@.slots.len(),
            forall|k: int|
                0 <= k < old(self)@.slots.len() ==> final(self)@.slots[k].length >= old(
                    self,
                )@.slots[k].length,
    {
        let ghost m0 = self@;
        let n = self.slots.len();
        let mut i: usize = 0;
        while i < n
            invariant
                n == self@.slots.len(),
                i <= n,
                self@.config == m0.config,
                self@.registry == m0.registry,
                self@.waiters == m0.waiters,
                self@.grants == m0.grants,
                self@.next_generation == m0.next_generation,
                self@.next_ticket == m0.next_ticket,
                forall|k: int| 0 <= k < i as int ==> self@.slots[k] == model_clean(m0, now).slots[k],
                forall|k: int| i as int <= k < n ==> self@.slots[k] == m0.slots[k],
            decreases n - i,
        {
            let expired = match &self.slots[i].lease {
                Some(l) => l.expires_at <= now,
                None => false,
            };
            if expired {
                let exists = self.slots[i].exists;
                let length = self.slots[i].length;
                self.slots.set(i, Slot { exists, length, lease: None });
            }
            i = i + 1;
        }
        proof {
            assert(self@ =~= model_clean(m0, now));
            assert(inv(self@));
            assert forall|k: int| 0 <= k < m0.slots.len() implies self@.slots[k].length
                == m0.slots[k].length by {}
            lemma_handoff_lengths(self@, now);
        }
        self.handoff(now);
    }

    /// Takes the recorded outcome of a queued request, if it has been
    /// decided, removing it from the table.
    pub fn take_grant(&mut self, ticket: u64) -> (r: Option<Result<BlobOffset, BlobError>>)
        requires
            old(self).wf(),
        ensures
            final(self).wf(),
            if grant_has(old(self)@.grants, ticket) {
                let gi = grant_idx(old(self)@.grants, ticket);
                &&& r matches Some(res) && result_model(res) == old(self)@.grants[gi].result
                &&& final(self)@ == (StorageModel {
                    grants: old(self)@.grants.remove(gi),
                    ..old(self)@
                })
            } else {
                r is None && final(self)@ == old(self)@
            },
    {
        let n = self.grants.len();
        let mut j: usize = 0;
        while j < n
            invariant
                self.wf(),
                self@ == old(self)@,
                n == self.grants@.len(),
                j <= n,
                forall|k: int| 0 <= k < j as int ==> self@.grants[k].ticket != ticket,
            decreases n - j,
        {
            if self.grants[j].ticket == ticket {
                proof {
                    lemma_found_grant(self@.grants, ticket, j as int);
                }
                let g = self.grants.remove(j);
                proof {
                    assert(self@.grants =~= old(self)@.grants.remove(j as int));
                    assert(self@ =~= (StorageModel {
                        grants: old(self)@.grants.remove(j as int),
                        ..old(self)@
                    }));
                    assert(inv(self@));
                }
                return Some(g.result);
            }
            j = j + 1;
        }
        proof {
            assert(!grant_has(self@.grants, ticket));
        }
        None
    }
}


/// A decided grant that failed.
pub open spec fn grant_err(ticket: u64, e: BlobErrorModel) -> GrantModel {
    GrantModel { ticket, result: Err(e) }
}

/// A decided grant that succeeded.
pub open spec fn grant_ok(ticket: u64, o: OffsetModel) -> GrantModel {
    GrantModel { ticket, result: Ok(o) }
}

/// An allocation only grows the chosen slot's length.
pub proof fn lemma_alloc_lengths(
    m: StorageModel,
    slot_id: int,
    entries: Seq<EntryModel>,
    node_id: Seq<char>,
    now: u64,
)
    requires
        0 <= slot_id < m.slots.len(),
        m.slots[slot_id].length + batch_total(entries) <= u64::MAX,
    ensures
        model_alloc(m, slot_id, entries, node_id, now).slots.len() == m.slots.len(),
        forall|k: int|
            0 <= k < m.slots.len() ==> model_alloc(
                m,
                slot_id,
                entries,
                node_id,
                now,
            ).slots[k].length >= m.slots[k].length,
{
    lemma_batch_total_nonneg(entries);
}

/// The hand-off loop only grows slot lengths.
pub proof fn lemma_handoff_lengths(m: StorageModel, now: u64)
    ensures
        model_handoff(m, now).slots.len() == m.slots.len(),
        forall|k: int|
            0 <= k < m.slots.len() ==> model_handoff(m, now).slots[k].length
                >= m.slots[k].length,
    decreases m.waiters.len(),
{
    if m.waiters.len() == 0 || first_free(m, now) is None {
    } else {
        let s = first_free(m, now)->0;
        let w = m.waiters[0];
        let m1 = StorageModel { waiters: m.waiters.drop_first(), ..m };
        lemma_first_free_in_range(m, now);
        match validate(m, w.entries, now) {
            Some(e) => {
                let mn = StorageModel {
                    grants: m1.grants.push(grant_err(w.ticket, e)),
                    ..m1
                };
                lemma_handoff_lengths(mn, now);
            },
            None => {
                if m.slots[s].length + batch_total(w.entries) <= u64::MAX {
                    let m2 = model_alloc(m1, s, w.entries, w.node_id, now);
                    lemma_alloc_lengths(m1, s, w.entries, w.node_id, now);
                    let mn = StorageModel {
                        grants: m2.grants.push(grant_ok(w.ticket, alloc_offset(m1, s))),
                        ..m2
                    };
                    lemma_handoff_lengths(mn, now);
                } else {
                    let mn = StorageModel {
                        grants: m1.grants.push(
                            grant_err(w.ticket, BlobErrorModel::OffsetOverflow),
                        ),
                        ..m1
                    };
                    lemma_handoff_lengths(mn, now);
                }
            },
        }
    }
}

/// The slot index the hand-off serves is in range.
pub proof fn lemma_first_free_in_range(m: StorageModel, now: u64)
    requires
        first_free(m, now) is Some,
    ensures
        0 <= first_free(m, now)->0 < m.slots.len(),
        !live_lease(m.slots[first_free(m, now)->0], now),
{
    lemma_first_free_from_in_range(m, now, 0);
}

pub proof fn lemma_first_free_from_in_range(m: StorageModel, now: u64, i: int)
    requires
        first_free_from(m, now, i) is Some,
    ensures
        i <= first_free_from(m, now, i)->0 < m.slots.len(),
        !live_lease(m.slots[first_free_from(m, now, i)->0], now),
    decreases m.slots.len() - i,
{
    if i < 0 || i >= m.slots.len() {
    } else if !live_lease(m.slots[i], now) {
    } else {
        lemma_first_free_from_in_range(m, now, i + 1);
    }
}


} // verus!
