//! The runtime chunk manager: resolves load and evict decisions per
//! simulation tick and caches resident chunks.
//!
//! The manager never blocks: a load request only records the `Loading` state
//! and tells the caller which keys to fetch; the caller performs the fetch
//! off the simulation thread and hands the outcome back through
//! `complete_load`.  Eviction is hysteretic: a resident chunk must sit
//! outside every entity's radius for more than `grace_period` consecutive
//! ticks before it is unloaded, so an entity oscillating near a cell
//! boundary does not thrash reloads.

use vstd::prelude::*;
use crate::codec::Chunk;
use crate::grid::CellCoordinate;

verus! {

/// Identifies one chunk: a model and a cell coordinate.
#[derive(Clone, Copy, Debug, PartialEq, Eq, Hash, Structural)]
pub struct ChunkKey {
    /// The world model the chunk belongs to.
    pub model: u32,
    /// The cell the chunk covers.
    pub cell: CellCoordinate,
}

/// The load state of one cached chunk.  A key with no entry is `Unloaded`.
pub enum LoadState {
    /// A fetch was issued and has not completed yet.
    Loading,
    /// The chunk is loaded and available to queries.  `idle_ticks` counts
    /// the consecutive ticks the chunk has spent outside every active
    /// radius; it is the eviction hysteresis clock.
    Resident { chunk: Chunk, idle_ticks: u32 },
    /// The last fetch failed (missing or unparsable artifact).  Terminal
    /// until an explicit new `request_load`; `tick` never retries it.
    Failed,
}

/// Cache entries carry distinct keys.
pub open spec fn wf_entries(s: Seq<(ChunkKey, LoadState)>) -> bool {
    forall|i: int, j: int| 0 <= i < j < s.len() ==> s[i].0 != s[j].0
}

/// The state stored for `k`, or `None` when `k` is unloaded.
pub open spec fn spec_get(s: Seq<(ChunkKey, LoadState)>, k: ChunkKey) -> Option<LoadState> {
    if exists|i: int| 0 <= i < s.len() && s[i].0 == k {
        Some(s[choose|i: int| 0 <= i < s.len() && s[i].0 == k].1)
    } else {
        None
    }
}

/// The state found at a matching index is the state of the key.
proof fn lemma_spec_get_at(s: Seq<(ChunkKey, LoadState)>, k: ChunkKey, i: int)
    requires
        wf_entries(s),
        0 <= i < s.len(),
        s[i].0 == k,
    ensures
        spec_get(s, k) == Some(s[i].1),
{
    let j = choose|j: int| 0 <= j < s.len() && s[j].0 == k;
    if i < j {
        assert(s[i].0 != s[j].0);
    } else if j < i {
        assert(s[j].0 != s[i].0);
    }
}

/// Appending an entry with a fresh key leaves every other key unchanged.
proof fn lemma_spec_get_push(s: Seq<(ChunkKey, LoadState)>, k: ChunkKey, st: LoadState)
    requires
        wf_entries(s),
        spec_get(s, k) is None,
    ensures
        wf_entries(s.push((k, st))),
        spec_get(s.push((k, st)), k) == Some(st),
        forall|k2: ChunkKey| k2 != k ==> spec_get(s.push((k, st)), k2) == spec_get(s, k2),
{
    let s2 = s.push((k, st));
    assert forall|i: int, j: int| 0 <= i < j < s2.len() implies s2[i].0 != s2[j].0 by {
        if j < s.len() {
        } else {
            assert(s2[j] == (k, st));
            if s2[i].0 == k {
                assert(spec_get(s, k) == Some(s[i].1)) by {
                    lemma_spec_get_at(s, k, i);
                }
            }
        }
    }
    lemma_spec_get_at(s2, k, s.len() as int);
    assert forall|k2: ChunkKey| k2 != k implies spec_get(s2, k2) == spec_get(s, k2) by {
        if exists|i: int| 0 <= i < s.len() && s[i].0 == k2 {
            let i = choose|i: int| 0 <= i < s.len() && s[i].0 == k2;
            lemma_spec_get_at(s, k2, i);
            lemma_spec_get_at(s2, k2, i);
        } else {
            if exists|i: int| 0 <= i < s2.len() && s2[i].0 == k2 {
                let i = choose|i: int| 0 <= i < s2.len() && s2[i].0 == k2;
                assert(i == s.len());
                assert(false);
            }
        }
    }
}

/// Replacing the state at one index changes that key alone.
proof fn lemma_spec_get_update(
    s1: Seq<(ChunkKey, LoadState)>,
    s2: Seq<(ChunkKey, LoadState)>,
    i: int,
    k: ChunkKey,
)
    requires
        wf_entries(s1),
        0 <= i < s1.len(),
        s1[i].0 == k,
        s2.len() == s1.len(),
        s2[i].0 == k,
        forall|j: int| 0 <= j < s1.len() && j != i ==> s2[j] == s1[j],
    ensures
        wf_entries(s2),
        spec_get(s2, k) == Some(s2[i].1),
        forall|k2: ChunkKey| k2 != k ==> spec_get(s2, k2) == spec_get(s1, k2),
{
    assert forall|p: int, q: int| 0 <= p < q < s2.len() implies s2[p].0 != s2[q].0 by {
        assert(s1[p].0 != s1[q].0);
    }
    lemma_spec_get_at(s2, k, i);
    assert forall|k2: ChunkKey| k2 != k implies spec_get(s2, k2) == spec_get(s1, k2) by {
        if exists|j: int| 0 <= j < s1.len() && s1[j].0 == k2 {
            let j = choose|j: int| 0 <= j < s1.len() && s1[j].0 == k2;
            assert(j != i);
            lemma_spec_get_at(s1, k2, j);
            lemma_spec_get_at(s2, k2, j);
        } else {
            if exists|j: int| 0 <= j < s2.len() && s2[j].0 == k2 {
                let j = choose|j: int| 0 <= j < s2.len() && s2[j].0 == k2;
                assert(s1[j].0 == k2);
                assert(false);
            }
        }
    }
}

/// What `request_load` does to one key's state: an unloaded or failed chunk
/// starts a fetch and becomes `Loading`; a loading or resident chunk is left
/// alone and no fetch starts.  The second component is whether a fetch was
/// started.
pub open spec fn spec_request_step(st: Option<LoadState>) -> (Option<LoadState>, bool) {
    match st {
        Option::None => (Some(LoadState::Loading), true),
        Option::Some(LoadState::Failed) => (Some(LoadState::Loading), true),
        Option::Some(other) => (Some(other), false),
    }
}

/// What load completion does to one key's state: only a `Loading` entry is
/// affected; success makes it `Resident` with a fresh hysteresis clock,
/// failure makes it `Failed`.  A stale completion for a key that is no
/// longer loading is ignored.
pub open spec fn spec_complete_step(st: Option<LoadState>, outcome: Option<Chunk>) -> Option<
    LoadState,
> {
    match st {
        Option::Some(LoadState::Loading) => match outcome {
            Option::Some(chunk) => Some(LoadState::Resident { chunk, idle_ticks: 0 }),
            Option::None => Some(LoadState::Failed),
        },
        other => other,
    }
}

/// What one simulation tick does to one key's state, given whether the key
/// is in the active set.  `Loading` and `Failed` entries are untouched (no
/// silent retry).  A resident chunk in the active set has its hysteresis
/// clock reset; outside the active set the clock advances, and the chunk is
/// unloaded once it has been outside for more than `grace` ticks.  An
/// unloaded key in the active set becomes `Loading`.
pub open spec fn spec_tick_step(st: Option<LoadState>, in_active: bool, grace: u32) -> Option<
    LoadState,
> {
    match st {
        Option::None => if in_active {
            Some(LoadState::Loading)
        } else {
            None
        },
        Option::Some(LoadState::Loading) => Some(LoadState::Loading),
        Option::Some(LoadState::Failed) => Some(LoadState::Failed),
        Option::Some(LoadState::Resident { chunk, idle_ticks }) => {
            if in_active {
                Some(LoadState::Resident { chunk, idle_ticks: 0 })
            } else if idle_ticks >= grace {
                None
            } else {
                Some(LoadState::Resident { chunk, idle_ticks: (idle_ticks + 1) as u32 })
            }
        },
    }
}

/// `st` holds a resident chunk.
pub open spec fn is_resident(st: Option<LoadState>) -> bool {
    st matches Some(LoadState::Resident { .. })
}

/// `st` holds exactly the resident chunk `c`.
pub open spec fn is_resident_chunk(st: Option<LoadState>, c: Chunk) -> bool {
    st matches Some(LoadState::Resident { chunk, idle_ticks }) && chunk == c
}

/// The runtime chunk manager: the single owner and writer of the chunk
/// cache.  Collaborators receive only short-lived borrows from
/// `poll_resident`, never handles into the cache.
pub struct ChunkManager {
    grace_period: u32,
    entries: Vec<(ChunkKey, LoadState)>,
}

impl ChunkManager {
    /// Cache keys are distinct: at most one entry, hence at most one
    /// in-flight load and one resident copy, per `(model, cell)` key.
    pub closed spec fn wf(self) -> bool {
        wf_entries(self.entries@)
    }

    /// The eviction grace period this manager was built with.
    pub closed spec fn spec_grace(self) -> u32 {
        self.grace_period
    }

    /// The load state cached for `key`; `None` means unloaded.
    pub closed spec fn spec_state(self, key: ChunkKey) -> Option<LoadState> {
        spec_get(self.entries@, key)
    }

    /// A manager with an empty cache.
    pub fn new(grace_period: u32) -> (r: ChunkManager)
        ensures
            r.wf(),
            r.spec_grace() == grace_period,
            forall|k: ChunkKey| r.spec_state(k) is None,
    {
        let r = ChunkManager { grace_period, entries: Vec::new() };
        proof {
            assert forall|k: ChunkKey| r.spec_state(k) is None by {
                if exists|i: int| 0 <= i < r.entries@.len() && r.entries@[i].0 == k {
                    let i = choose|i: int| 0 <= i < r.entries@.len() && r.entries@[i].0 == k;
                    assert(false);
                }
            }
        }
        r
    }

    /// Non-blocking query: a borrowed handle to the resident chunk for
    /// `key`, or `None` in every other state.  Callers must not hold the
    /// borrow across a `tick`.
    pub fn poll_resident(&self, key: ChunkKey) -> (r: Option<&Chunk>)
        requires
            self.wf(),
        ensures
            r is Some <==> is_resident(self.spec_state(key)),
            r matches Some(c) ==> is_resident_chunk(self.spec_state(key), *c),
    {
        let n: usize = self.entries.len();
        let mut i: usize = 0;
        while i < n
            invariant
                i <= n,
                n == self.entries@.len(),
                self.wf(),
                forall|j: int| 0 <= j < i ==> self.entries@[j].0 != key,
            decreases n - i,
        {
            if self.entries[i].0 == key {
                proof {
                    lemma_spec_get_at(self.entries@, key, i as int);
                }
                match &self.entries[i].1 {
                    LoadState::Resident { chunk, idle_ticks } => {
                        return Some(chunk);
                    },
                    _ => {
                        return None;
                    },
                }
            }
            i = i + 1;
        }
        proof {
            if exists|j: int| 0 <= j < self.entries@.len() && self.entries@[j].0 == key {
                let j = choose|j: int| 0 <= j < self.entries@.len() && self.entries@[j].0 == key;
                assert(false);
            }
        }
        None
    }

    /// Requests that the chunk for `key` be made resident.  Idempotent: if
    /// the chunk is already `Loading` or `Resident` nothing changes and no
    /// new fetch starts; from `Unloaded` or `Failed` the state becomes
    /// `Loading` and the caller must fetch the artifact and report back
    /// through `complete_load`.  Returns whether a fetch was started.
    pub fn request_load(&mut self, key: ChunkKey) -> (started: bool)
        requires
            old(self).wf(),
        ensures
            final(self).wf(),
            final(self).spec_grace() == old(self).spec_grace(),
            final(self).spec_state(key) == spec_request_step(old(self).spec_state(key)).0,
            started == spec_request_step(old(self).spec_state(key)).1,
            forall|k2: ChunkKey|
                k2 != key ==> final(self).spec_state(k2) == old(self).spec_state(k2),
    {
        let n: usize = self.entries.len();
        let mut i: usize = 0;
        while i < n
            invariant
                i <= n,
                n == self.entries@.len(),
                self == old(self),
                self.wf(),
                forall|j: int| 0 <= j < i ==> self.entries@[j].0 != key,
            decreases n - i,
        {
            if self.entries[i].0 == key {
                proof {
                    lemma_spec_get_at(self.entries@, key, i as int);
                }
                let restart: bool = match &self.entries[i].1 {
                    LoadState::Failed => true,
                    _ => false,
                };
                if restart {
                    let ghost pre = self.entries@;
                    let _old_entry = self.entries.remove(i);
                    self.entries.insert(i, (key, LoadState::Loading));
                    proof {
                        assert forall|j: int|
                            0 <= j < pre.len() && j != i as int implies self.entries@[j] == pre[j] by {
                            if j < i as int {
                            } else {
                                assert(self.entries@[j] == pre.remove(i as int)[j - 1]);
                            }
                        }
                        lemma_spec_get_update(pre, self.entries@, i as int, key);
                    }
                    return true;
                }
                return false;
            }
            i = i + 1;
        }
        proof {
            if exists|j: int| 0 <= j < self.entries@.len() && self.entries@[j].0 == key {
                let j = choose|j: int| 0 <= j < self.entries@.len() && self.entries@[j].0 == key;
                assert(false);
            }
            lemma_spec_get_push(self.entries@, key, LoadState::Loading);
        }
        self.entries.push((key, LoadState::Loading));
        true
    }

    /// Reports the outcome of a fetch started by `request_load` or `tick`:
    /// `Some` makes the chunk `Resident`, `None` (missing or unparsable
    /// artifact) makes it `Failed`, and the simulation continues without
    /// that chunk's geometry.  A stale completion is ignored.  Never
    /// panics and never blocks.
    pub fn complete_load(&mut self, key: ChunkKey, outcome: Option<Chunk>)
        requires
            old(self).wf(),
        ensures
            final(self).wf(),
            final(self).spec_grace() == old(self).spec_grace(),
            final(self).spec_state(key) == spec_complete_step(
                old(self).spec_state(key),
                outcome,
            ),
            forall|k2: ChunkKey|
                k2 != key ==> final(self).spec_state(k2) == old(self).spec_state(k2),
    {
        let n: usize = self.entries.len();
        let mut i: usize = 0;
        while i < n
            invariant
                i <= n,
                n == self.entries@.len(),
                self == old(self),
                self.wf(),
                forall|j: int| 0 <= j < i ==> self.entries@[j].0 != key,
            decreases n - i,
        {
            if self.entries[i].0 == key {
                proof {
                    lemma_spec_get_at(self.entries@, key, i as int);
                }
                let loading: bool = match &self.entries[i].1 {
                    LoadState::Loading => true,
                    _ => false,
                };
                if loading {
                    let ghost pre = self.entries@;
                    let _old_entry = self.entries.remove(i);
                    let st = match outcome {
                        Option::Some(chunk) => LoadState::Resident { chunk, idle_ticks: 0 },
                        Option::None => LoadState::Failed,
                    };
                    self.entries.insert(i, (key, st));
                    proof {
                        assert forall|j: int|
                            0 <= j < pre.len() && j != i as int implies self.entries@[j] == pre[j] by {
                            if j < i as int {
                            } else {
                                assert(self.entries@[j] == pre.remove(i as int)[j - 1]);
                            }
                        }
                        lemma_spec_get_update(pre, self.entries@, i as int, key);
                    }
                }
                return ;
            }
            i = i + 1;
        }
        proof {
            if exists|j: int| 0 <= j < self.entries@.len() && self.entries@[j].0 == key {
                let j = choose|j: int| 0 <= j < self.entries@.len() && self.entries@[j].0 == key;
                assert(false);
            }
        }
    }
}

/// Extending a well-formed entry list by its next element changes that
/// element's key alone.
proof fn lemma_spec_get_take_step(s: Seq<(ChunkKey, LoadState)>, i: int)
    requires
        wf_entries(s),
        0 <= i < s.len(),
    ensures
        forall|k: ChunkKey|
            spec_get(s.take(i + 1), k) == if k == s[i].0 {
                Some(s[i].1)
            } else {
                spec_get(s.take(i), k)
            },
{
    assert(s.take(i + 1) =~= s.take(i).push(s[i]));
    assert(wf_entries(s.take(i)));
    if exists|j: int| 0 <= j < s.take(i).len() && s.take(i)[j].0 == s[i].0 {
        let j = choose|j: int| 0 <= j < s.take(i).len() && s.take(i)[j].0 == s[i].0;
        assert(s[j].0 == s[i].0);
        assert(false);
    }
    lemma_spec_get_push(s.take(i), s[i].0, s[i].1);
    lemma_spec_get_at(s.take(i + 1), s[i].0, i);
}

/// Whether a key list holds `k`.
fn contains_key(keys: &Vec<ChunkKey>, k: ChunkKey) -> (r: bool)
    ensures
        r == keys@.contains(k),
{
    let n: usize = keys.len();
    let mut i: usize = 0;
    while i < n
        invariant
            i <= n,
            n == keys@.len(),
            forall|j: int| 0 <= j < i ==> keys@[j] != k,
        decreases n - i,
    {
        if keys[i] == k {
            proof {
                assert(keys@[i as int] == k);
            }
            return true;
        }
        i = i + 1;
    }
    proof {
        if keys@.contains(k) {
            let j = choose|j: int| 0 <= j < keys@.len() && keys@[j] == k;
            assert(false);
        }
    }
    false
}

/// Whether an entry list holds a state for `k`.
fn has_entry(entries: &Vec<(ChunkKey, LoadState)>, k: ChunkKey) -> (r: bool)
    requires
        wf_entries(entries@),
    ensures
        r == (spec_get(entries@, k) is Some),
{
    let n: usize = entries.len();
    let mut i: usize = 0;
    while i < n
        invariant
            i <= n,
            n == entries@.len(),
            wf_entries(entries@),
            forall|j: int| 0 <= j < i ==> entries@[j].0 != k,
        decreases n - i,
    {
        if entries[i].0 == k {
            proof {
                lemma_spec_get_at(entries@, k, i as int);
            }
            return true;
        }
        i = i + 1;
    }
    proof {
        if exists|j: int| 0 <= j < entries@.len() && entries@[j].0 == k {
            let j = choose|j: int| 0 <= j < entries@.len() && entries@[j].0 == k;
            assert(false);
        }
    }
    false
}

impl ChunkManager {
    /// One simulation step.  `active` is the union of every entity's
    /// required cells this tick (derived from positions and spawn radii).
    /// Every key's state moves by `spec_tick_step`: unloaded active keys
    /// start loading, resident inactive chunks age toward eviction and are
    /// unloaded past the grace period, resident active chunks stay fresh.
    /// Returns exactly the keys whose fetch the caller must start, each
    /// once.  Never blocks and never retries a `Failed` chunk by itself.
    #[verifier::rlimit(50)]
    pub fn tick(&mut self, active: &Vec<ChunkKey>) -> (to_fetch: Vec<ChunkKey>)
        requires
            old(self).wf(),
        ensures
            final(self).wf(),
            final(self).spec_grace() == old(self).spec_grace(),
            forall|k: ChunkKey|
                final(self).spec_state(k) == spec_tick_step(
                    old(self).spec_state(k),
                    active@.contains(k),
                    old(self).spec_grace(),
                ),
            forall|k: ChunkKey| #[trigger]
                to_fetch@.contains(k) <==> (active@.contains(k) && old(self).spec_state(k)
                    is None),
            forall|i: int, j: int| 0 <= i < j < to_fetch@.len() ==> to_fetch@[i] != to_fetch@[j],
    {
        let grace: u32 = self.grace_period;
        let ghost pre = self.entries@;
        let n: usize = self.entries.len();
        let mut kept: Vec<(ChunkKey, LoadState)> = Vec::new();
        let mut i: usize = 0;
        while i < n
            invariant
                i <= n,
                n == pre.len(),
                self.entries@ == pre.subrange(i as int, n as int),
                self.grace_period == grace,
                wf_entries(pre),
                wf_entries(kept@),
                forall|k: ChunkKey|
                    spec_get(kept@, k) == (match spec_get(pre.take(i as int), k) {
                        Option::Some(st) => spec_tick_step(Some(st), active@.contains(k), grace),
                        Option::None => None::<LoadState>,
                    }),
            decreases n - i,
        {
            let ghost rest = self.entries@;
            let (key, st) = self.entries.remove(0);
            let ghost st0 = st;
            proof {
                assert(rest[0] == pre[i as int]);
                assert(key == pre[i as int].0 && st0 == pre[i as int].1);
                assert(self.entries@ =~= pre.subrange(i as int + 1, n as int));
            }
            let in_active: bool = contains_key(active, key);
            proof {
                lemma_spec_get_take_step(pre, i as int);
                if exists|j: int| 0 <= j < kept@.len() && kept@[j].0 == key {
                    let j = choose|j: int| 0 <= j < kept@.len() && kept@[j].0 == key;
                    lemma_spec_get_at(kept@, key, j);
                    assert(spec_get(pre.take(i as int), key) is Some);
                    let w = choose|w: int|
                        0 <= w < pre.take(i as int).len() && pre.take(i as int)[w].0 == key;
                    assert(pre[w].0 == key && pre[i as int].0 == key);
                    assert(false);
                }
            }
            let new_st: Option<LoadState> = match st {
                LoadState::Resident { chunk, idle_ticks } => {
                    if in_active {
                        Some(LoadState::Resident { chunk, idle_ticks: 0 })
                    } else if idle_ticks < grace {
                        Some(LoadState::Resident { chunk, idle_ticks: idle_ticks + 1 })
                    } else {
                        None
                    }
                },
                LoadState::Loading => Some(LoadState::Loading),
                LoadState::Failed => Some(LoadState::Failed),
            };
            proof {
                assert(match new_st {
                    Option::Some(nst) => Some(nst) == spec_tick_step(Some(st0), in_active, grace),
                    Option::None => spec_tick_step(Some(st0), in_active, grace) is None,
                });
            }
            let ghost kept_pre = kept@;
            match new_st {
                Option::Some(nst) => {
                    proof {
                        lemma_spec_get_push(kept@, key, nst);
                    }
                    kept.push((key, nst));
                },
                Option::None => {},
            }
            proof {
                assert forall|k: ChunkKey|
                    spec_get(kept@, k) == (match spec_get(pre.take(i as int + 1), k) {
                        Option::Some(st2) => spec_tick_step(Some(st2), active@.contains(k), grace),
                        Option::None => None::<LoadState>,
                    }) by {
                    if k == key {
                        assert(spec_get(pre.take(i as int + 1), k) == Some(st0));
                        assert(spec_get(kept_pre, k) is None);
                    } else {
                        assert(spec_get(pre.take(i as int + 1), k) == spec_get(
                            pre.take(i as int),
                            k,
                        ));
                        assert(spec_get(kept@, k) == spec_get(kept_pre, k));
                    }
                }
            }
            i = i + 1;
        }
        proof {
            assert(pre.take(n as int) =~= pre);
        }
        let ghost base = kept@;
        let m: usize = active.len();
        let mut j: usize = 0;
        let mut to_fetch: Vec<ChunkKey> = Vec::new();
        while j < m
            invariant
                j <= m,
                m == active@.len(),
                wf_entries(kept@),
                forall|k: ChunkKey|
                    spec_get(kept@, k) == (if active@.take(j as int).contains(k) && spec_get(
                        base,
                        k,
                    ) is None {
                        Some(LoadState::Loading)
                    } else {
                        spec_get(base, k)
                    }),
                forall|k: ChunkKey| #[trigger]
                    to_fetch@.contains(k) <==> (active@.take(j as int).contains(k) && spec_get(
                        base,
                        k,
                    ) is None),
                forall|p: int, q: int|
                    0 <= p < q < to_fetch@.len() ==> to_fetch@[p] != to_fetch@[q],
            decreases m - j,
        {
            let key: ChunkKey = active[j];
            let present: bool = has_entry(&kept, key);
            proof {
                broadcast use vstd::seq_lib::lemma_seq_contains_after_push;

                assert(active@.take(j as int + 1) =~= active@.take(j as int).push(key));
            }
            let ghost kept_pre = kept@;
            let ghost tf_pre = to_fetch@;
            if !present {
                proof {
                    lemma_spec_get_push(kept@, key, LoadState::Loading);
                    assert(!to_fetch@.contains(key));
                }
                kept.push((key, LoadState::Loading));
                to_fetch.push(key);
                proof {
                    assert(to_fetch@ == tf_pre.push(key));
                }
            }
            proof {
                assert forall|k: ChunkKey|
                    spec_get(kept@, k) == (if active@.take(j as int + 1).contains(k) && spec_get(
                        base,
                        k,
                    ) is None {
                        Some(LoadState::Loading)
                    } else {
                        spec_get(base, k)
                    }) by {
                    if k == key {
                        if present {
                            assert(spec_get(kept_pre, k) is Some);
                            assert(spec_get(kept@, k) == spec_get(kept_pre, k));
                        }
                    } else {
                        assert(active@.take(j as int + 1).contains(k) == active@.take(
                            j as int,
                        ).contains(k));
                        if !present {
                            assert(spec_get(kept@, k) == spec_get(kept_pre, k));
                        }
                    }
                }
                assert forall|k: ChunkKey| #[trigger]
                    to_fetch@.contains(k) <==> (active@.take(j as int + 1).contains(k)
                        && spec_get(base, k) is None) by {
                    if k == key {
                        if present && spec_get(base, k) is None {
                            assert(spec_get(kept_pre, k) is Some);
                            assert(active@.take(j as int).contains(k));
                        }
                    } else {
                        assert(to_fetch@.contains(k) == tf_pre.contains(k));
                        assert(active@.take(j as int + 1).contains(k) == active@.take(
                            j as int,
                        ).contains(k));
                    }
                }
            }
            j = j + 1;
        }
        proof {
            assert(active@.take(m as int) =~= active@);
        }
        self.entries = kept;
        to_fetch
    }
}

/// Law: a second `request_load` on the same key never starts a second
/// fetch: whatever the starting state, the state after one request is
/// `Loading` or `Resident`, and a request in those states starts nothing.
/// Two calls in succession therefore issue exactly one underlying fetch.
pub proof fn lemma_request_load_idempotent(st: Option<LoadState>)
    ensures
        spec_request_step(spec_request_step(st).0).1 == false,
{
}

/// The state after `n` consecutive ticks outside every active radius.
pub open spec fn spec_ticks_outside(st: Option<LoadState>, grace: u32, n: nat) -> Option<LoadState>
    decreases n,
{
    if n == 0 {
        st
    } else {
        spec_tick_step(spec_ticks_outside(st, grace, (n - 1) as nat), false, grace)
    }
}

/// While within the grace period the hysteresis clock just counts up; one
/// tick past it the chunk is unloaded, and it stays unloaded.
pub proof fn lemma_ticks_outside_progress(chunk: Chunk, grace: u32, n: nat)
    ensures
        n <= grace ==> spec_ticks_outside(
            Some(LoadState::Resident { chunk, idle_ticks: 0 }),
            grace,
            n,
        ) == Some(LoadState::Resident { chunk, idle_ticks: n as u32 }),
        n > grace ==> spec_ticks_outside(
            Some(LoadState::Resident { chunk, idle_ticks: 0 }),
            grace,
            n,
        ) is None,
    decreases n,
{
    if n > 0 {
        lemma_ticks_outside_progress(chunk, grace, (n - 1) as nat);
    }
}

/// Law: a resident chunk that stays outside every active radius for longer
/// than the grace period is unloaded, and `poll_resident` then reports it
/// as not resident.
pub proof fn lemma_eviction_after_grace(chunk: Chunk, grace: u32, n: nat)
    requires
        n > grace,
    ensures
        spec_ticks_outside(Some(LoadState::Resident { chunk, idle_ticks: 0 }), grace, n) is None,
        !is_resident(
            spec_ticks_outside(Some(LoadState::Resident { chunk, idle_ticks: 0 }), grace, n),
        ),
{
    lemma_ticks_outside_progress(chunk, grace, n);
}

} // verus!
