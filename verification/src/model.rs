//! The mathematical model of the cache: what it holds, and what each
//! operation returns and changes.

use vstd::prelude::*;
use crate::cache::Config;
use crate::cache::pattern_matches;
use crate::cache::SetOptionsModel;
use crate::cache_errors::Fault;
use crate::entry::charge;
use crate::entry::EntryModel;
use crate::stats::raised;
use crate::stats::Stats;
use crate::ttl::deadline;
use crate::ttl::NANOS_PER_SECOND;
use crate::ttl::Ttl;
use crate::value::ValueModel;

verus! {

/// How many entries one sweep for expired entries looks at.
pub const NUM_SAMPLES: usize = 20;

/// The parent that a stored key names; `None` for a key that is not stored or has none.
pub open spec fn parent_of(entries: Map<Seq<char>, EntryModel>, key: Seq<char>) -> Option<
    Seq<char>,
> {
    if entries.dom().contains(key) {
        entries[key].parent
    } else {
        None
    }
}

/// Whether `steps` parent links lead from `key` to `top`.
pub open spec fn climbs(
    entries: Map<Seq<char>, EntryModel>,
    key: Seq<char>,
    steps: nat,
    top: Seq<char>,
) -> bool
    decreases steps,
{
    if steps == 0 {
        key == top
    } else {
        match parent_of(entries, key) {
            Some(p) => climbs(entries, p, (steps - 1) as nat, top),
            None => false,
        }
    }
}

/// A climb of `steps` links to `top` passes a key from which `at` links lead to `top`.
pub proof fn lemma_climb_passes(
    entries: Map<Seq<char>, EntryModel>,
    key: Seq<char>,
    steps: nat,
    at: nat,
    top: Seq<char>,
)
    requires
        climbs(entries, key, steps, top),
        at <= steps,
    ensures
        exists|q: Seq<char>| climbs(entries, q, at, top),
    decreases steps,
{
    if steps != at {
        lemma_climb_passes(entries, parent_of(entries, key)->0, (steps - 1) as nat, at, top);
    }
}

/// Whether no key is its own ancestor.
pub open spec fn acyclic(entries: Map<Seq<char>, EntryModel>) -> bool {
    forall|key: Seq<char>, steps: nat| steps > 0 ==> !#[trigger] climbs(entries, key, steps, key)
}

/// Whether `key` and its ancestors are all stored and unexpired at `now`, as
/// far as `fuel` parent links reach. A chain that is longer counts as broken.
pub open spec fn chain_valid(
    entries: Map<Seq<char>, EntryModel>,
    key: Seq<char>,
    now: u128,
    fuel: nat,
) -> bool
    decreases fuel,
{
    entries.dom().contains(key) && !entries[key].lapsed_at(now) && match entries[key].parent {
        None => true,
        Some(p) => fuel > 0 && chain_valid(entries, p, now, (fuel - 1) as nat),
    }
}

/// Whether an entry is valid at `now`: not expired itself, and without a
/// parent or with a parent whose chain is valid. The chain may be as long as
/// the number of stored keys.
pub open spec fn entry_valid(entries: Map<Seq<char>, EntryModel>, entry: EntryModel, now: u128) -> bool {
    !entry.lapsed_at(now) && match entry.parent {
        None => true,
        Some(p) => chain_valid(entries, p, now, entries.dom().len()),
    }
}

/// Whether `key` is stored with a valid entry at `now`.
pub open spec fn key_valid(entries: Map<Seq<char>, EntryModel>, key: Seq<char>, now: u128) -> bool {
    entries.dom().contains(key) && entry_valid(entries, entries[key], now)
}

/// Whether the walk up from `from` meets `target`, or is still on a stored
/// key with a parent when `fuel` links have been followed.
pub open spec fn walk_meets(
    entries: Map<Seq<char>, EntryModel>,
    target: Seq<char>,
    from: Seq<char>,
    fuel: nat,
) -> bool
    decreases fuel,
{
    from == target || match parent_of(entries, from) {
        None => false,
        Some(p) => fuel == 0 || walk_meets(entries, target, p, (fuel - 1) as nat),
    }
}

/// Whether giving `key` the parent `parent` is refused as a cycle: the two
/// are one key, or the walk up from `parent` meets `key` or does not end
/// within as many links as there are stored keys.
pub open spec fn would_cycle(
    entries: Map<Seq<char>, EntryModel>,
    key: Seq<char>,
    parent: Seq<char>,
) -> bool {
    key == parent || walk_meets(entries, key, parent, entries.dom().len())
}

/// Whole seconds in `nanos`, or the largest `i64` where they pass it.
pub open spec fn whole_seconds(nanos: u128) -> i64 {
    if nanos / NANOS_PER_SECOND > i64::MAX {
        i64::MAX
    } else {
        (nanos / NANOS_PER_SECOND) as i64
    }
}

/// The expiry that `set` gives an entry: fixed, `span` nanoseconds after `now`.
pub open spec fn expiry_for(span: Option<u128>, now: u128) -> Option<Ttl> {
    match span {
        Some(d) => Some(Ttl { expires_at: deadline(now, d), sliding: false, duration: d }),
        None => None,
    }
}

/// The window of a shard that one sweep looks at: the whole shard where it
/// is smaller than the sample, else a sample that starts where the counter says.
pub open spec fn sample_window(counter: usize, shard_size: usize) -> (usize, usize) {
    if shard_size < NUM_SAMPLES {
        (0, shard_size)
    } else {
        (((counter * 7) % (shard_size - NUM_SAMPLES + 1)) as usize, NUM_SAMPLES)
    }
}

/// What the sweep numbered `counter` looks at in the shard `turn`: the
/// keys in its window, in the order of the shard.
pub open spec fn sample_of(turn: Seq<Seq<char>>, counter: usize) -> Seq<Seq<char>> {
    turn.subrange(
        sample_window(counter, turn.len() as usize).0 as int,
        sample_window(counter, turn.len() as usize).0 + sample_window(
            counter,
            turn.len() as usize,
        ).1,
    )
}

/// Those of `keys`, in their order, that are stored with an expiry that has come at `now`.
pub open spec fn expired_among(
    entries: Map<Seq<char>, EntryModel>,
    keys: Seq<Seq<char>>,
    now: u128,
) -> Seq<Seq<char>>
    decreases keys.len(),
{
    if keys.len() == 0 {
        Seq::empty()
    } else {
        let before = expired_among(entries, keys.drop_last(), now);
        let k = keys.last();
        if entries.dom().contains(k) && entries[k].ttl is Some && entries[k].lapsed_at(now) {
            before.push(k)
        } else {
            before
        }
    }
}

/// How many of `keys`, each counted as often as it comes, are stored with a valid entry at `now`.
pub open spec fn count_valid(
    entries: Map<Seq<char>, EntryModel>,
    keys: Seq<Seq<char>>,
    now: u128,
) -> nat
    decreases keys.len(),
{
    if keys.len() == 0 {
        0
    } else {
        count_valid(entries, keys.drop_last(), now) + if key_valid(entries, keys.last(), now) {
            1nat
        } else {
            0nat
        }
    }
}

/// The content of a sequence of keys with their depths.
pub open spec fn pairs_view(s: Seq<(String, u64)>) -> Seq<(Seq<char>, u64)> {
    Seq::new(s.len(), |i: int| (s[i].0@, s[i].1))
}

/// The texts of a sequence of string slices.
pub open spec fn strs_view(s: Seq<&str>) -> Seq<Seq<char>> {
    Seq::new(s.len(), |i: int| s[i]@)
}

/// What the cache holds and has counted.
pub struct CacheModel {
    /// Each stored key with its entry.
    pub entries: Map<Seq<char>, EntryModel>,
    /// The counters and the accounted bytes.
    pub stats: Stats,
    /// How many sweeps for expired entries have been made.
    pub cursor: usize,
}

impl CacheModel {
    /// What holds of every cache: it stores finitely many keys, no key
    /// is its own ancestor, and no entry was read before it was made.
    pub open spec fn well_formed(self) -> bool {
        &&& self.entries.dom().finite()
        &&& acyclic(self.entries)
        &&& forall|k: Seq<char>| #[trigger]
            self.entries.dom().contains(k) ==> self.entries[k].well_formed()
    }

    /// Whether `key` is stored.
    pub open spec fn holds(self, key: Seq<char>) -> bool {
        self.entries.dom().contains(key)
    }

    /// The state with one more miss counted.
    pub open spec fn missed(self) -> CacheModel {
        CacheModel { stats: Stats { misses: raised(self.stats.misses, 1), ..self.stats }, ..self }
    }

    /// The state with one more hit counted.
    pub open spec fn hit(self) -> CacheModel {
        CacheModel { stats: Stats { hits: raised(self.stats.hits, 1), ..self.stats }, ..self }
    }

    /// The state without a stored `key`, and without the bytes charged for it.
    pub open spec fn without(self, key: Seq<char>) -> CacheModel {
        CacheModel {
            entries: self.entries.remove(key),
            stats: Stats {
                memory_usage: self.stats.memory_usage.wrapping_sub(charge(key, self.entries[key])),
                ..self.stats
            },
            ..self
        }
    }

    /// The state with `entry` put in place of the stored entry of `key`;
    /// nothing is counted and the accounted bytes stay.
    pub open spec fn replaced(self, key: Seq<char>, entry: EntryModel) -> CacheModel {
        CacheModel { entries: self.entries.insert(key, entry), ..self }
    }

    /// A read of `key` at `now`: the state after it and the value found.
    ///
    /// A key that is not stored is a miss. A key whose entry is not valid is
    /// a miss too, and leaves the store with its bytes. A valid entry is a
    /// hit and records the read.
    pub open spec fn get_at(self, key: Seq<char>, now: u128) -> (CacheModel, Option<ValueModel>) {
        if !self.holds(key) {
            (self.missed(), None)
        } else if !entry_valid(self.entries, self.entries[key], now) {
            (self.missed().without(key), None)
        } else {
            (
                self.hit().replaced(key, self.entries[key].accessed(now)),
                Some(self.entries[key].value),
            )
        }
    }

    /// The seconds that `key` has left at `now`: -2 for a key that is not
    /// stored or has expired, -1 for one without expiry.
    pub open spec fn ttl_at(self, key: Seq<char>, now: u128) -> i64 {
        if !self.holds(key) {
            -2i64
        } else {
            match self.entries[key].ttl {
                None => -1i64,
                Some(t) => match t.remaining_at(now) {
                    None => -2i64,
                    Some(r) => whole_seconds(r),
                },
            }
        }
    }

    /// Whether `set` leaves the store alone because of `nx` or `xx`.
    pub open spec fn set_skips(self, key: Seq<char>, options: SetOptionsModel) -> bool {
        (options.nx && self.holds(key)) || (options.xx && !self.holds(key))
    }

    /// Why `key` cannot get the parent `parent`, if it cannot.
    pub open spec fn link_fault(self, config: Config, key: Seq<char>, parent: Seq<char>) -> Option<
        Fault,
    > {
        if !config.enable_dependencies {
            Some(Fault::DependenciesDisabled)
        } else if !self.holds(parent) {
            Some(Fault::ParentNotFound(parent))
        } else if would_cycle(self.entries, key, parent) {
            Some(Fault::DependencyCycle(key, parent))
        } else {
            None
        }
    }

    /// The bytes charged for what `key` holds now: nothing for a key that is not stored.
    pub open spec fn charged(self, key: Seq<char>) -> usize {
        if self.holds(key) {
            charge(key, self.entries[key])
        } else {
            0
        }
    }

    /// Why `entry` is not admitted under `key`, if it is not: first the
    /// bytes, then the number of keys.
    pub open spec fn admission_fault(self, config: Config, key: Seq<char>, entry: EntryModel) -> Option<
        Fault,
    > {
        if config.max_memory matches Some(max) && self.stats.memory_usage + charge(key, entry)
            - self.charged(key) > max {
            Some(Fault::MemoryLimitExceeded)
        } else if config.max_keys matches Some(max) && self.entries.dom().len() >= max
            && !self.holds(key) {
            Some(Fault::KeyLimitExceeded)
        } else {
            None
        }
    }

    /// The state after `entry` was admitted under `key`: stored, counted as
    /// a set, and charged in place of what the key held.
    pub open spec fn admitted(self, key: Seq<char>, entry: EntryModel) -> CacheModel {
        CacheModel {
            entries: self.entries.insert(key, entry),
            stats: Stats {
                sets: raised(self.stats.sets, 1),
                memory_usage: self.stats.memory_usage.wrapping_add(charge(key, entry)).wrapping_sub(
                    self.charged(key),
                ),
                ..self.stats
            },
            ..self
        }
    }

    /// A write of `value` under `key` at `now`: the state after it, and
    /// whether it was made, skipped (`Ok(false)`) or refused.
    pub open spec fn set_at(
        self,
        config: Config,
        key: Seq<char>,
        value: ValueModel,
        options: SetOptionsModel,
        now: u128,
    ) -> (CacheModel, Result<bool, Fault>) {
        let entry = EntryModel::fresh(value, expiry_for(options.ttl, now), options.parent, now);
        if self.set_skips(key, options) {
            (self, Ok(false))
        } else if options.parent matches Some(p) && self.link_fault(config, key, p) is Some {
            (self, Err(self.link_fault(config, key, options.parent->0)->0))
        } else if self.admission_fault(config, key, entry) is Some {
            (self, Err(self.admission_fault(config, key, entry)->0))
        } else {
            (self.admitted(key, entry), Ok(true))
        }
    }

    /// The state after the stored entry of `key` got the expiry `ttl`.
    pub open spec fn with_ttl(self, key: Seq<char>, ttl: Option<Ttl>) -> CacheModel {
        self.replaced(key, EntryModel { ttl, ..self.entries[key] })
    }

    /// Giving `key` a fixed expiry `seconds` after `now`: the state after it,
    /// and 1 for a stored key, 0 for another.
    pub open spec fn expire_at(self, key: Seq<char>, seconds: u64, now: u128) -> (CacheModel, i64) {
        if self.holds(key) {
            (
                self.with_ttl(
                    key,
                    Some(
                        Ttl {
                            expires_at: deadline(now, (seconds * NANOS_PER_SECOND) as u128),
                            sliding: false,
                            duration: (seconds * NANOS_PER_SECOND) as u128,
                        },
                    ),
                ),
                1,
            )
        } else {
            (self, 0)
        }
    }

    /// Taking the expiry from `key`: the state after it, and 1 for a stored
    /// key, 0 for another.
    pub open spec fn persist(self, key: Seq<char>) -> (CacheModel, i64) {
        if self.holds(key) {
            (self.with_ttl(key, None), 1)
        } else {
            (self, 0)
        }
    }

    /// Giving `key` the parent `parent`: the state after it, and 1 for a
    /// stored key, 0 for another, or why the parent is refused.
    pub open spec fn set_parent(self, config: Config, key: Seq<char>, parent: Seq<char>) -> (
        CacheModel,
        Result<i64, Fault>,
    ) {
        if self.link_fault(config, key, parent) is Some {
            (self, Err(self.link_fault(config, key, parent)->0))
        } else if self.holds(key) {
            (self.replaced(key, EntryModel { parent: Some(parent), ..self.entries[key] }), Ok(1))
        } else {
            (self, Ok(0))
        }
    }

    /// Removing `keys` one after the other: the state after it and how
    /// many were stored when their turn came. Deletes are not counted here.
    pub open spec fn dropped(self, keys: Seq<Seq<char>>) -> (CacheModel, nat)
        decreases keys.len(),
    {
        if keys.len() == 0 {
            (self, 0)
        } else {
            let (before, n) = self.dropped(keys.drop_last());
            if before.holds(keys.last()) {
                (before.without(keys.last()), n + 1)
            } else {
                (before, n)
            }
        }
    }

    /// The state with `n` more deletes counted.
    pub open spec fn deleted(self, n: nat) -> CacheModel {
        CacheModel { stats: Stats { deletes: raised(self.stats.deletes, n), ..self.stats }, ..self }
    }

    /// Deleting `keys`: the state after it and the number of keys removed.
    pub open spec fn del(self, keys: Seq<Seq<char>>) -> (CacheModel, nat) {
        (self.dropped(keys).0.deleted(self.dropped(keys).1), self.dropped(keys).1)
    }

    /// The state after everything was dropped: no entry, no accounted byte, the counters as they were.
    pub open spec fn flushed(self) -> CacheModel {
        CacheModel {
            entries: Map::empty(),
            stats: Stats { memory_usage: 0, ..self.stats },
            ..self
        }
    }

    /// The stored keys that `pattern` matches.
    pub open spec fn matching(self, pattern: Seq<char>) -> Set<Seq<char>> {
        self.entries.dom().filter(|k: Seq<char>| pattern_matches(k, pattern))
    }

    /// The stored keys that name `parent` as their parent.
    pub open spec fn children_of(self, parent: Seq<char>) -> Set<Seq<char>> {
        self.entries.dom().filter(|k: Seq<char>| self.entries[k].parent == Some(parent))
    }

    /// Whether `keys` answers a listing of up to `limit` keys that
    /// `pattern` matches: no key twice, only stored keys that match, as
    /// many as the limit allows, and all of them where it allows all.
    pub open spec fn lists_matching(
        self,
        pattern: Seq<char>,
        limit: usize,
        keys: Seq<Seq<char>>,
    ) -> bool {
        &&& keys.no_duplicates()
        &&& keys.to_set().subset_of(self.matching(pattern))
        &&& self.matching(pattern).finite()
        &&& keys.len() == if limit <= self.matching(pattern).len() {
            limit as nat
        } else {
            self.matching(pattern).len()
        }
        &&& limit >= self.matching(pattern).len() ==> keys.to_set() == self.matching(pattern)
    }

    /// Whether `keys` lists the children of `parent`: each once, and no other key.
    pub open spec fn lists_children(self, parent: Seq<char>, keys: Seq<Seq<char>>) -> bool {
        keys.no_duplicates() && keys.to_set() == self.children_of(parent)
    }

    /// Whether `pairs` lists what is below `top` down to `max_depth`: each
    /// pair is a key with the number of links that lead from it to `top`,
    /// every such pair is listed once, and the levels come in order.
    pub open spec fn lists_descendants(
        self,
        top: Seq<char>,
        max_depth: usize,
        pairs: Seq<(Seq<char>, u64)>,
    ) -> bool {
        &&& forall|i: int|
            0 <= i < pairs.len() ==> 1 <= (#[trigger] pairs[i]).1 <= max_depth && climbs(
                self.entries,
                pairs[i].0,
                pairs[i].1 as nat,
                top,
            )
        &&& forall|k: Seq<char>, d: nat|
            1 <= d <= max_depth && #[trigger] climbs(self.entries, k, d, top) ==> exists|i: int|
                0 <= i < pairs.len() && pairs[i].0 == k && pairs[i].1 == d
        &&& forall|i: int, j: int|
            0 <= i < j < pairs.len() ==> (#[trigger] pairs[i]).1 <= (#[trigger] pairs[j]).1
        &&& forall|i: int, j: int|
            0 <= i < j < pairs.len() ==> #[trigger] pairs[i] != #[trigger] pairs[j]
    }

    /// Whether `sampled` can be what one sweep looks at: stored keys, at
    /// most [`NUM_SAMPLES`] of them, none twice.
    pub open spec fn is_sample(self, sampled: Seq<Seq<char>>) -> bool {
        &&& sampled.len() <= NUM_SAMPLES
        &&& sampled.no_duplicates()
        &&& forall|i: int| 0 <= i < sampled.len() ==> self.holds(#[trigger] sampled[i])
    }

    /// Whether one sweep at `now` can lead to the state `after` and remove
    /// `removed` keys: the sweep is counted, and of some sample those keys
    /// are deleted whose expiry has come.
    pub open spec fn sweeps_to(self, now: u128, after: CacheModel, removed: nat) -> bool {
        exists|sampled: Seq<Seq<char>>|
            self.is_sample(sampled) && #[trigger] self.swept().purged(sampled, now) == (
                after,
                removed,
            )
    }

    /// The state with one more sweep counted.
    pub open spec fn swept(self) -> CacheModel {
        CacheModel { cursor: self.cursor.wrapping_add(1), ..self }
    }

    /// Deleting those of `sampled` whose expiry has come at `now`.
    pub open spec fn purged(self, sampled: Seq<Seq<char>>, now: u128) -> (CacheModel, nat) {
        self.del(expired_among(self.entries, sampled, now))
    }
}

} // verus!
