//! The cache: its configuration, its operations and their contracts.
//!
//! Every operation is stated over [`CacheModel`](crate::model::CacheModel):
//! the state after it and its result are those of the model's function of
//! the same name. The store is a `DashMap` that is only reached through the
//! trusted functions of [`store`](crate::store).

use vstd::prelude::*;
use vstd::string::*;
use dashmap::DashMap;
use crate::cache_errors::CacheError;
use crate::cache_errors::Fault;
use crate::clock::Clock;
use crate::entry::Entry;
use crate::entry::EntryModel;
use crate::entry::opt_text;
use crate::laws::law_delete_keeps_well_formed;
use crate::laws::law_expiry_keeps_well_formed;
use crate::laws::law_flush_keeps_well_formed;
use crate::laws::law_link_keeps_well_formed;
use crate::laws::law_read_keeps_well_formed;
use crate::laws::law_write_keeps_well_formed;
use crate::listing::descend;
use crate::listing::lists_all;
use crate::listing::pick_children;
use crate::listing::pick_matching;
use crate::model::CacheModel;
use crate::model::count_valid;
use crate::model::expired_among;
use crate::model::key_valid;
use crate::model::NUM_SAMPLES;
use crate::model::pairs_view;
use crate::model::parent_of;
use crate::model::sample_of;
use crate::model::sample_window;
use crate::model::strs_view;
use crate::model::walk_meets;
use crate::model::would_cycle;
use crate::stats::Stats;
use crate::store::holds_keys;
use crate::store::lemma_shard_in_walk;
use crate::store::lemma_shards_hold_stored;
use crate::store::lemma_walked_prefix;
use crate::store::scanned_keys;
use crate::store::shard_keys;
use crate::store::shard_total;
use crate::store::walk;
use crate::store::walked;
use crate::store::store_clear;
use crate::store::store_contains;
use crate::store::store_insert;
use crate::store::store_len;
use crate::store::store_link;
use crate::store::store_new;
use crate::store::store_remove;
use crate::store::store_scan;
use crate::store::store_shard_len;
use crate::store::store_shards;
use crate::store::store_size;
use crate::store::stored;
use crate::text::ends_with_star;
use crate::text::has_prefix_before_star;
use crate::text::owned;
use crate::text::same_text;
use crate::ttl::Ttl;
use crate::validity::link_is_valid;
use crate::value::texts_view;
use crate::value::Value;
use crate::value::ValueModel;

verus! {

broadcast use vstd::seq::group_seq_axioms, vstd::map::group_map_axioms, vstd::set::group_set_axioms;

/// Bytes that an empty cache accounts for.
pub const BASE_OVERHEAD: usize = 168;

/// Nanoseconds between two sweeps for expired entries, unless configured otherwise.
pub const DEFAULT_CLEANUP_INTERVAL: u128 = 60_000_000_000;

/// The limits and switches of a cache.
#[derive(Debug, Clone, Copy, PartialEq, Eq, Structural)]
pub struct Config {
    /// The most bytes the cache may account for, if limited.
    pub max_memory: Option<usize>,
    /// The most keys the cache may hold, if limited.
    pub max_keys: Option<usize>,
    /// Whether entries may have parents.
    pub enable_dependencies: bool,
    /// Nanoseconds that a scheduler should leave between two sweeps for
    /// expired entries. The cache itself does not read it.
    pub ttl_cleanup_interval: u128,
}

impl Default for Config {
    fn default() -> (c: Config)
        ensures
            c == (Config {
                max_memory: None,
                max_keys: None,
                enable_dependencies: true,
                ttl_cleanup_interval: DEFAULT_CLEANUP_INTERVAL,
            }),
    {
        Config {
            max_memory: None,
            max_keys: None,
            enable_dependencies: true,
            ttl_cleanup_interval: DEFAULT_CLEANUP_INTERVAL,
        }
    }
}

/// What a write may ask for beyond key and value.
#[derive(Debug, Clone)]
pub struct SetOptions {
    /// Nanoseconds after which the entry expires, if it does.
    pub ttl: Option<u128>,
    /// The key that the entry depends on, if any.
    pub parent: Option<String>,
    /// Write only if the key is not stored.
    pub nx: bool,
    /// Write only if the key is stored.
    pub xx: bool,
}

/// The mathematical content of [`SetOptions`].
pub struct SetOptionsModel {
    pub ttl: Option<u128>,
    pub parent: Option<Seq<char>>,
    pub nx: bool,
    pub xx: bool,
}

impl View for SetOptions {
    type V = SetOptionsModel;

    open spec fn view(&self) -> SetOptionsModel {
        SetOptionsModel { ttl: self.ttl, parent: opt_text(self.parent), nx: self.nx, xx: self.xx }
    }
}

impl SetOptionsModel {
    /// No expiry, no parent, no condition.
    pub open spec fn plain() -> SetOptionsModel {
        SetOptionsModel { ttl: None, parent: None, nx: false, xx: false }
    }
}

impl Default for SetOptions {
    fn default() -> (o: SetOptions)
        ensures
            o@ == SetOptionsModel::plain(),
    {
        SetOptions { ttl: None, parent: None, nx: false, xx: false }
    }
}

/// Whether `pattern` matches `key`: a lone asterisk matches every key, a
/// pattern that ends in an asterisk matches the keys that begin with what
/// stands before it, and any other pattern matches itself alone.
pub open spec fn pattern_matches(key: Seq<char>, pattern: Seq<char>) -> bool {
    if pattern == seq!['*'] {
        true
    } else if pattern.len() > 0 && pattern.last() == '*' {
        pattern.drop_last().is_prefix_of(key)
    } else {
        key == pattern
    }
}

/// Whether `pattern` matches `key`.
pub fn matches_pattern(key: &str, pattern: &str) -> (b: bool)
    ensures
        b == pattern_matches(key@, pattern@),
{
    if ends_with_star(pattern) {
        proof {
            if pattern@ == seq!['*'] {
                assert(pattern@.drop_last() =~= Seq::<char>::empty());
            }
        }
        has_prefix_before_star(key, pattern)
    } else {
        same_text(key, pattern)
    }
}

/// The content of an optional value.
pub open spec fn opt_value(v: Option<Value>) -> Option<ValueModel> {
    match v {
        Some(x) => Some(x@),
        None => None,
    }
}

/// The content of an optional error.
pub open spec fn opt_fault(e: Option<CacheError>) -> Option<Fault> {
    match e {
        Some(x) => Some(x@),
        None => None,
    }
}

/// The content of the outcome of a write.
pub open spec fn outcome<T>(r: Result<T, CacheError>) -> Result<T, Fault> {
    match r {
        Ok(x) => Ok(x),
        Err(e) => Err(e@),
    }
}

/// The window of a shard of `shard_size` entries that the sweep numbered `counter` looks at.
pub fn sample_window_of(counter: usize, shard_size: usize) -> (w: (usize, usize))
    ensures
        w == sample_window(counter, shard_size),
        w.1 <= NUM_SAMPLES,
{
    if shard_size < NUM_SAMPLES {
        (0, shard_size)
    } else {
        let span = (shard_size - NUM_SAMPLES + 1) as u128;
        let offset = (counter as u128 * 7) % span;
        (offset as usize, NUM_SAMPLES)
    }
}

/// A key/value cache with expiry and parent links.
pub struct Cache {
    data: DashMap<String, Entry>,
    config: Config,
    stats: Stats,
    cleanup_shard_index: usize,
    clock: Clock,
}

impl View for Cache {
    type V = CacheModel;

    closed spec fn view(&self) -> CacheModel {
        CacheModel { entries: stored(self.data), stats: self.stats, cursor: self.cleanup_shard_index }
    }
}

impl Cache {
    /// The configuration that the cache was made with.
    pub closed spec fn settings(&self) -> Config {
        self.config
    }

    /// The latest reading of the cache's clock.
    pub closed spec fn time(&self) -> u128 {
        self.clock.reading()
    }

    /// The number of shards that the store is divided into.
    pub closed spec fn shards(&self) -> nat {
        shard_total(self.data)
    }

    /// The keys of one shard of the store, in the order in which the shard
    /// is walked. An operation that changes the store may change the order.
    pub closed spec fn shard(&self, index: nat) -> Seq<Seq<char>> {
        shard_keys(self.data, index)
    }

    /// The keys that the next sweep looks at: the window of the shard whose
    /// turn it is by the number of sweeps made.
    pub open spec fn sample(&self) -> Seq<Seq<char>> {
        if self.shards() == 0 {
            Seq::empty()
        } else {
            sample_of(self.shard((self@.cursor as nat) % self.shards()), self@.cursor)
        }
    }

    /// An empty cache: nothing stored, nothing counted, the base bytes accounted.
    pub fn new(config: Config) -> (cache: Cache)
        ensures
            cache.settings() == config,
            cache.time() == 0,
            cache@.well_formed(),
            cache@ == (CacheModel {
                entries: Map::empty(),
                stats: Stats { hits: 0, misses: 0, sets: 0, deletes: 0, memory_usage: BASE_OVERHEAD },
                cursor: 0,
            }),
    {
        Cache {
            data: store_new(),
            config,
            stats: Stats::starting_at(BASE_OVERHEAD),
            cleanup_shard_index: 0,
            clock: Clock::start(),
        }
    }

    /// The configuration that the cache was made with.
    pub fn config(&self) -> (c: Config)
        ensures
            c == self.settings(),
    {
        self.config
    }

    /// The counters and the accounted bytes.
    pub fn stats(&self) -> (s: &Stats)
        ensures
            *s == self@.stats,
    {
        &self.stats
    }

    /// The number of stored keys.
    pub fn len(&self) -> (n: usize)
        ensures
            holds_keys(self@.entries, n as nat),
    {
        store_len(&self.data)
    }

    /// Whether no key is stored.
    pub fn is_empty(&self) -> (b: bool)
        ensures
            b == (self@.entries.dom().len() == 0),
            self@.entries.dom().finite(),
    {
        store_len(&self.data) == 0
    }

    /// The accounted bytes.
    pub fn memory_usage(&self) -> (n: usize)
        ensures
            n == self@.stats.memory_usage,
    {
        self.stats.memory_usage
    }

    /// Whether giving `key` the parent `parent` is refused as a cycle.
    fn would_create_cycle(&self, key: &str, parent: &str) -> (b: bool)
        ensures
            b == would_cycle(self@.entries, key@, parent@),
    {
        if same_text(key, parent) {
            return true;
        }
        let n = store_len(&self.data);
        let mut fuel: usize = n;
        let mut cur = owned(parent);
        loop
            invariant
                holds_keys(stored(self.data), n as nat),
                walk_meets(stored(self.data), key@, parent@, n as nat) == walk_meets(
                    stored(self.data),
                    key@,
                    cur@,
                    fuel as nat,
                ),
            decreases fuel,
        {
            if same_text(cur.as_str(), key) {
                return true;
            }
            match store_link(&self.data, cur.as_str()) {
                None => {
                    return false;
                },
                Some(link) => match link.parent {
                    None => {
                        return false;
                    },
                    Some(p) => {
                        if fuel == 0 {
                            return true;
                        }
                        fuel = fuel - 1;
                        cur = p;
                    },
                },
            }
        }
    }

    /// Why `key` cannot get the parent `parent`, if it cannot.
    fn link_check(&self, key: &str, parent: &str) -> (r: Option<CacheError>)
        ensures
            opt_fault(r) == self@.link_fault(self.settings(), key@, parent@),
    {
        if !self.config.enable_dependencies {
            return Some(CacheError::DependenciesDisabled);
        }
        if !store_contains(&self.data, parent) {
            return Some(CacheError::ParentNotFound(owned(parent)));
        }
        if self.would_create_cycle(key, parent) {
            return Some(CacheError::DependencyCycle(owned(key), owned(parent)));
        }
        None
    }

    /// Admits `entry` under `key`, or says why not. A refusal changes nothing.
    fn insert_entry(&mut self, key: String, entry: Entry) -> (r: Result<(), CacheError>)
        ensures
            final(self).settings() == old(self).settings(),
            final(self).shards() == old(self).shards(),
            final(self).time() == old(self).time(),
            match old(self)@.admission_fault(old(self).settings(), key@, entry@) {
                Some(f) => r matches Err(e) && e@ == f && final(self)@ == old(self)@,
                None => r is Ok && final(self)@ == old(self)@.admitted(key@, entry@),
            },
    {
        let fresh = entry.charge_under(key.as_str());
        let held = store_size(&self.data, key.as_str());
        let prior: usize = match held {
            Some(n) => crate::value::add_saturating(crate::text::text_len(key.as_str()), n),
            None => 0,
        };
        match self.config.max_memory {
            Some(max) => {
                if self.stats.memory_usage as u128 + fresh as u128 > max as u128 + prior as u128 {
                    return Err(CacheError::MemoryLimitExceeded);
                }
            },
            None => {},
        }
        match self.config.max_keys {
            Some(max) => {
                if store_len(&self.data) >= max && held.is_none() {
                    return Err(CacheError::KeyLimitExceeded);
                }
            },
            None => {},
        }
        store_insert(&mut self.data, key, entry);
        self.stats.sets = self.stats.sets.saturating_add(1);
        self.stats.memory_usage = self.stats.memory_usage.wrapping_add(fresh).wrapping_sub(prior);
        Ok(())
    }

    /// Writes `value` under `key` at `now`, unless `options` or the
    /// configuration say otherwise. A skipped or refused write changes nothing.
    pub fn set_at(&mut self, key: String, value: Value, options: SetOptions, now: u128) -> (r:
        Result<bool, CacheError>)
        ensures
            (final(self)@, outcome(r)) == old(self)@.set_at(
                old(self).settings(),
                key@,
                value@,
                options@,
                now,
            ),
            final(self).settings() == old(self).settings(),
            final(self).shards() == old(self).shards(),
            final(self).time() == old(self).time(),
            old(self)@.well_formed() ==> final(self)@.well_formed(),
    {
        proof {
            if old(self)@.well_formed() {
                law_write_keeps_well_formed(
                    old(self)@,
                    old(self).settings(),
                    key@,
                    value@,
                    options@,
                    now,
                );
            }
        }
        let exists = store_contains(&self.data, key.as_str());
        if options.nx && exists {
            return Ok(false);
        }
        if options.xx && !exists {
            return Ok(false);
        }
        match &options.parent {
            Some(p) => match self.link_check(key.as_str(), p.as_str()) {
                Some(e) => {
                    return Err(e);
                },
                None => {},
            },
            None => {},
        }
        let ttl = match options.ttl {
            Some(d) => Some(Ttl::new(d, now)),
            None => None,
        };
        let entry = Entry {
            value,
            ttl,
            parent: options.parent,
            access_count: 0,
            last_accessed: now,
            created_at: now,
        };
        match self.insert_entry(key, entry) {
            Ok(_) => Ok(true),
            Err(e) => Err(e),
        }
    }

    /// The seconds that `key` has left at `now`: -2 for a key that is not
    /// stored or has expired, -1 for one without expiry.
    pub fn ttl_at(&self, key: &str, now: u128) -> (r: i64)
        ensures
            r == self@.ttl_at(key@, now),
    {
        match store_link(&self.data, key) {
            None => -2,
            Some(link) => match link.ttl {
                None => -1,
                Some(t) => match t.remaining(now) {
                    None => -2,
                    Some(left) => {
                        let secs = left / crate::ttl::NANOS_PER_SECOND;
                        if secs > i64::MAX as u128 {
                            i64::MAX
                        } else {
                            secs as i64
                        }
                    },
                },
            },
        }
    }

    /// Puts `ttl` in place of the expiry of a stored `key`.
    fn put_ttl(&mut self, key: &str, ttl: Option<Ttl>) -> (found: bool)
        ensures
            found == old(self)@.holds(key@),
            final(self)@ == if found {
                old(self)@.with_ttl(key@, ttl)
            } else {
                old(self)@
            },
            final(self).settings() == old(self).settings(),
            final(self).shards() == old(self).shards(),
            final(self).time() == old(self).time(),
    {
        match store_remove(&mut self.data, key) {
            Some(pair) => {
                let mut entry = pair.1;
                entry.ttl = ttl;
                store_insert(&mut self.data, pair.0, entry);
                assert(final(self)@.entries =~= old(self)@.with_ttl(key@, ttl).entries);
                true
            },
            None => {
                assert(final(self)@.entries =~= old(self)@.entries);
                false
            },
        }
    }

    /// Gives a stored `key` a fixed expiry `seconds` after `now`: 1 for a
    /// stored key, 0 for another.
    pub fn expire_at(&mut self, key: &str, seconds: u64, now: u128) -> (r: i64)
        ensures
            (final(self)@, r) == old(self)@.expire_at(key@, seconds, now),
            final(self).settings() == old(self).settings(),
            final(self).shards() == old(self).shards(),
            final(self).time() == old(self).time(),
            old(self)@.well_formed() ==> final(self)@.well_formed(),
    {
        proof {
            if old(self)@.well_formed() {
                law_expiry_keeps_well_formed(old(self)@, key@, seconds, now);
            }
        }
        let span: u128 = seconds as u128 * crate::ttl::NANOS_PER_SECOND;
        if self.put_ttl(key, Some(Ttl::new(span, now))) {
            1
        } else {
            0
        }
    }

    /// Takes the expiry from a stored `key`: 1 for a stored key, 0 for another.
    pub fn persist(&mut self, key: &str) -> (r: i64)
        ensures
            (final(self)@, r) == old(self)@.persist(key@),
            final(self).settings() == old(self).settings(),
            final(self).shards() == old(self).shards(),
            final(self).time() == old(self).time(),
            old(self)@.well_formed() ==> final(self)@.well_formed(),
    {
        proof {
            if old(self)@.well_formed() {
                law_expiry_keeps_well_formed(old(self)@, key@, 0, 0);
            }
        }
        if self.put_ttl(key, None) {
            1
        } else {
            0
        }
    }

    /// The parent that a stored `key` names.
    pub fn parent(&self, key: &str) -> (r: Option<String>)
        ensures
            opt_text(r) == parent_of(self@.entries, key@),
    {
        match store_link(&self.data, key) {
            Some(link) => link.parent,
            None => None,
        }
    }

    /// Gives a stored `key` the parent `parent`: 1 for a stored key, 0 for
    /// another, or why the parent is refused. A refusal changes nothing.
    pub fn set_parent(&mut self, key: &str, parent: String) -> (r: Result<i64, CacheError>)
        ensures
            (final(self)@, outcome(r)) == old(self)@.set_parent(
                old(self).settings(),
                key@,
                parent@,
            ),
            final(self).settings() == old(self).settings(),
            final(self).shards() == old(self).shards(),
            final(self).time() == old(self).time(),
            old(self)@.well_formed() ==> final(self)@.well_formed(),
    {
        proof {
            if old(self)@.well_formed() {
                law_link_keeps_well_formed(old(self)@, old(self).settings(), key@, parent@);
            }
        }
        match self.link_check(key, parent.as_str()) {
            Some(e) => {
                return Err(e);
            },
            None => {},
        }
        match store_remove(&mut self.data, key) {
            Some(pair) => {
                let mut entry = pair.1;
                entry.parent = Some(parent);
                store_insert(&mut self.data, pair.0, entry);
                assert(final(self)@.entries =~= old(self)@.entries.insert(
                    key@,
                    EntryModel { parent: Some(parent@), ..old(self)@.entries[key@] },
                ));
                Ok(1)
            },
            None => {
                assert(final(self)@.entries =~= old(self)@.entries);
                Ok(0)
            },
        }
    }

    /// Whether `key` is stored with a valid entry at `now`. Nothing is
    /// removed and nothing is counted.
    pub fn exists_at(&self, key: &str, now: u128) -> (b: bool)
        ensures
            b == key_valid(self@.entries, key@, now),
    {
        match store_link(&self.data, key) {
            Some(link) => link_is_valid(&self.data, &link.ttl, &link.parent, now),
            None => false,
        }
    }

    /// Deletes `keys`: removes each that is stored, gives back the bytes
    /// charged for it, and counts the deletes. Returns how many were removed.
    pub fn del(&mut self, keys: &[&str]) -> (n: usize)
        ensures
            (final(self)@, n as nat) == old(self)@.del(strs_view(keys@)),
            final(self).settings() == old(self).settings(),
            final(self).shards() == old(self).shards(),
            final(self).time() == old(self).time(),
            old(self)@.well_formed() ==> final(self)@.well_formed(),
    {
        proof {
            if old(self)@.well_formed() {
                law_delete_keeps_well_formed(old(self)@, strs_view(keys@), 0);
            }
        }
        let mut count: usize = 0;
        let mut i: usize = 0;
        let ghost all = strs_view(keys@);
        assert(all.subrange(0, 0) =~= Seq::<Seq<char>>::empty());
        while i < keys.len()
            invariant
                i <= keys.len(),
                count <= i,
                all == strs_view(keys@),
                (self@, count as nat) == old(self)@.dropped(all.subrange(0, i as int)),
                self.settings() == old(self).settings(),
                self.shards() == old(self).shards(),
                self.time() == old(self).time(),
            decreases keys.len() - i,
        {
            proof {
                assert(all.subrange(0, i + 1).drop_last() =~= all.subrange(0, i as int));
                assert(all.subrange(0, i + 1).last() == keys@[i as int]@);
            }
            match store_remove(&mut self.data, keys[i]) {
                Some(pair) => {
                    let freed = pair.1.charge_under(pair.0.as_str());
                    self.stats.memory_usage = self.stats.memory_usage.wrapping_sub(freed);
                    count = count + 1;
                },
                None => {
                    assert(self@.entries =~= old(self)@.dropped(all.subrange(0, i as int)).0.entries);
                },
            }
            i = i + 1;
        }
        assert(all.subrange(0, keys@.len() as int) =~= all);
        self.stats.deletes = self.stats.deletes.saturating_add(count as u64);
        count
    }

    /// Deletes one key: whether it was stored.
    pub fn delete(&mut self, key: &str) -> (b: bool)
        ensures
            (final(self)@, if b {
                1nat
            } else {
                0nat
            }) == old(self)@.del(seq![key@]),
            final(self).settings() == old(self).settings(),
            final(self).shards() == old(self).shards(),
            final(self).time() == old(self).time(),
            old(self)@.well_formed() ==> final(self)@.well_formed(),
    {
        proof {
            if old(self)@.well_formed() {
                law_delete_keeps_well_formed(old(self)@, seq![key@], 0);
            }
        }
        let one: [&str; 1] = [key];
        assert(strs_view(one@) =~= seq![key@]);
        proof {
            reveal_with_fuel(CacheModel::dropped, 2);
        }
        self.del(one.as_slice()) == 1
    }

    /// How many of `keys`, each counted as often as it comes, are stored
    /// with a valid entry at `now`.
    pub fn exists_multi_at(&self, keys: &[&str], now: u128) -> (n: usize)
        ensures
            n == count_valid(self@.entries, strs_view(keys@), now),
    {
        let mut count: usize = 0;
        let mut i: usize = 0;
        let ghost all = strs_view(keys@);
        assert(all.subrange(0, 0) =~= Seq::<Seq<char>>::empty());
        while i < keys.len()
            invariant
                i <= keys.len(),
                count <= i,
                all == strs_view(keys@),
                count == count_valid(self@.entries, all.subrange(0, i as int), now),
            decreases keys.len() - i,
        {
            proof {
                assert(all.subrange(0, i + 1).drop_last() =~= all.subrange(0, i as int));
                assert(all.subrange(0, i + 1).last() == keys@[i as int]@);
            }
            if self.exists_at(keys[i], now) {
                count = count + 1;
            }
            i = i + 1;
        }
        assert(all.subrange(0, keys@.len() as int) =~= all);
        count
    }

    /// Deletes those of `sampled` that are stored with an expiry that has
    /// come at `now`. Returns how many were removed.
    pub fn purge(&mut self, sampled: &Vec<String>, now: u128) -> (n: usize)
        ensures
            (final(self)@, n as nat) == old(self)@.purged(texts_view(sampled@), now),
            final(self).settings() == old(self).settings(),
            final(self).shards() == old(self).shards(),
            final(self).time() == old(self).time(),
            old(self)@.well_formed() ==> final(self)@.well_formed(),
    {
        proof {
            if old(self)@.well_formed() {
                law_delete_keeps_well_formed(old(self)@, texts_view(sampled@), now);
            }
        }
        let mut doomed: Vec<&str> = Vec::new();
        let mut i: usize = 0;
        let ghost all = texts_view(sampled@);
        assert(all.subrange(0, 0) =~= Seq::<Seq<char>>::empty());
        assert(strs_view(doomed@) =~= Seq::<Seq<char>>::empty());
        while i < sampled.len()
            invariant
                i <= sampled.len(),
                all == texts_view(sampled@),
                strs_view(doomed@) == expired_among(self@.entries, all.subrange(0, i as int), now),
            decreases sampled.len() - i,
        {
            proof {
                assert(all.subrange(0, i + 1).drop_last() =~= all.subrange(0, i as int));
                assert(all.subrange(0, i + 1).last() == sampled@[i as int]@);
            }
            match store_link(&self.data, sampled[i].as_str()) {
                Some(link) => match link.ttl {
                    Some(t) => {
                        if t.is_expired(now) {
                            let ghost before = strs_view(doomed@);
                            doomed.push(sampled[i].as_str());
                            assert(strs_view(doomed@) =~= before.push(sampled@[i as int]@));
                        }
                    },
                    None => {},
                },
                None => {},
            }
            i = i + 1;
        }
        assert(all.subrange(0, sampled@.len() as int) =~= all);
        self.del(doomed.as_slice())
    }

    /// One sweep for expired entries at `now`: takes the shard whose turn
    /// it is, looks at its window, and deletes the entries there whose
    /// expiry has come. Returns how many were removed.
    pub fn cleanup_expired_at(&mut self, now: u128) -> (n: usize)
        ensures
            (final(self)@, n as nat) == old(self)@.swept().purged(old(self).sample(), now),
            old(self)@.is_sample(old(self).sample()),
            old(self)@.sweeps_to(now, final(self)@, n as nat),
            final(self).settings() == old(self).settings(),
            final(self).shards() == old(self).shards(),
            final(self).time() == old(self).time(),
            old(self)@.well_formed() ==> final(self)@.well_formed(),
    {
        let counter = self.cleanup_shard_index;
        let sampled = self.sample_keys();
        self.cleanup_shard_index = counter.wrapping_add(1);
        let n = self.purge(&sampled, now);
        assert(old(self)@.swept().purged(old(self).sample(), now) == (self@, n as nat));
        n
    }

    /// The keys that the next sweep looks at.
    fn sample_keys(&self) -> (sampled: Vec<String>)
        ensures
            texts_view(sampled@) == self.sample(),
            self@.is_sample(self.sample()),
    {
        let counter = self.cleanup_shard_index;
        let mut sampled: Vec<String> = Vec::new();
        let total = store_len(&self.data);
        let shards = store_shards(&self.data);
        if shards == 0 {
            assert(texts_view(sampled@) =~= self.sample());
            return sampled;
        }
        let index = counter % shards;
        let size = store_shard_len(&self.data, index);
        let ghost turn = shard_keys(self.data, index as nat);
        if size == 0 {
            assert(texts_view(sampled@) =~= self.sample());
            return sampled;
        }
        let window = sample_window_of(counter, size);
        proof {
            walk(self.data).unique_seq_to_set();
            lemma_shard_in_walk(self.data, index as nat, window.0 as int, window.0 + window.1);
        }
        let mut base: usize = 0;
        let mut j: usize = 0;
        while j < index
            invariant
                j <= index,
                index < shard_total(self.data),
                base == walked(self.data, j as nat).len(),
                walk(self.data).len() <= usize::MAX,
            decreases index - j,
        {
            proof {
                lemma_walked_prefix(self.data, (j + 1) as nat, shard_total(self.data));
            }
            base = base + store_shard_len(&self.data, j);
            j = j + 1;
        }
        let found = store_scan(&self.data, base + window.0, window.1);
        assert(scanned_keys(found@) == turn.subrange(window.0 as int, window.0 + window.1));
        let mut k: usize = 0;
        while k < found.len()
            invariant
                k <= found.len(),
                sampled@.len() == k,
                forall|i: int| 0 <= i < k ==> sampled@[i]@ == found@[i].0@,
            decreases found.len() - k,
        {
            sampled.push(found[k].0.clone());
            k = k + 1;
        }
        assert(texts_view(sampled@) =~= scanned_keys(found@));
        assert(texts_view(sampled@) == self.sample());
        sampled
    }

    /// Every stored key once, with its parent key, in the store's own order.
    fn scan_all(&self) -> (found: Vec<(String, Option<String>)>)
        ensures
            lists_all(found@, self@.entries),
            self@.entries.dom().finite(),
    {
        let total = store_len(&self.data);
        store_scan(&self.data, 0, usize::MAX)
    }

    /// Up to `limit` of the stored keys that `pattern` matches, each once, in
    /// the store's own order. Whether an entry is valid is not looked at.
    pub fn keys(&self, pattern: &str, limit: usize) -> (r: Vec<String>)
        ensures
            self@.lists_matching(pattern@, limit, texts_view(r@)),
    {
        let found = self.scan_all();
        pick_matching(&found, pattern, limit, Ghost(self@))
    }

    /// The stored keys that name `parent` as their parent, each once, in the
    /// store's own order.
    pub fn children(&self, parent: &str) -> (r: Vec<String>)
        ensures
            self@.lists_children(parent@, texts_view(r@)),
    {
        let found = self.scan_all();
        pick_children(&found, parent, Ghost(self@))
    }

    /// The stored keys below `parent_key`, level by level down to
    /// `max_depth`: each key with the number of parent links that lead from
    /// it to `parent_key`. The levels come in order, the keys of one level
    /// in the store's own order.
    pub fn children_recursive(&self, parent_key: &str, max_depth: usize) -> (r: Vec<(String, u64)>)
        ensures
            self@.lists_descendants(parent_key@, max_depth, pairs_view(r@)),
    {
        let found = self.scan_all();
        descend(&found, parent_key, max_depth, Ghost(self@))
    }

    /// Reads `key` at the clock's next reading.
    pub fn get(&mut self, key: &str) -> (r: Option<Value>)
        ensures
            final(self).time() >= old(self).time(),
            final(self).settings() == old(self).settings(),
            final(self).shards() == old(self).shards(),
            (final(self)@, opt_value(r)) == old(self)@.get_at(key@, final(self).time()),
            old(self)@.well_formed() ==> final(self)@.well_formed(),
    {
        let now = self.clock.tick();
        self.get_at(key, now)
    }

    /// Writes `value` under `key` at the clock's next reading.
    pub fn set(&mut self, key: String, value: Value, options: SetOptions) -> (r: Result<
        bool,
        CacheError,
    >)
        ensures
            final(self).time() >= old(self).time(),
            final(self).settings() == old(self).settings(),
            final(self).shards() == old(self).shards(),
            (final(self)@, outcome(r)) == old(self)@.set_at(
                old(self).settings(),
                key@,
                value@,
                options@,
                final(self).time(),
            ),
            old(self)@.well_formed() ==> final(self)@.well_formed(),
    {
        let now = self.clock.tick();
        self.set_at(key, value, options, now)
    }

    /// The seconds that `key` has left at a reading of the clock that is
    /// no earlier than the latest one taken.
    pub fn ttl(&self, key: &str) -> (r: i64)
        ensures
            exists|now: u128| now >= self.time() && r == #[trigger] self@.ttl_at(key@, now),
    {
        let now = self.clock.peek();
        self.ttl_at(key, now)
    }

    /// Gives a stored `key` a fixed expiry `seconds` after the clock's next reading.
    pub fn expire(&mut self, key: &str, seconds: u64) -> (r: i64)
        ensures
            final(self).time() >= old(self).time(),
            final(self).settings() == old(self).settings(),
            final(self).shards() == old(self).shards(),
            (final(self)@, r) == old(self)@.expire_at(key@, seconds, final(self).time()),
            old(self)@.well_formed() ==> final(self)@.well_formed(),
    {
        let now = self.clock.tick();
        self.expire_at(key, seconds, now)
    }

    /// Whether `key` is stored with a valid entry at a reading of the
    /// clock that is no earlier than the latest one taken.
    pub fn exists_key(&self, key: &str) -> (b: bool)
        ensures
            exists|now: u128| now >= self.time() && b == #[trigger] key_valid(self@.entries, key@, now),
    {
        let now = self.clock.peek();
        self.exists_at(key, now)
    }

    /// How many of `keys` are stored with a valid entry at a reading of
    /// the clock that is no earlier than the latest one taken.
    pub fn exists_multi(&self, keys: &[&str]) -> (n: usize)
        ensures
            exists|now: u128|
                now >= self.time() && n == #[trigger] count_valid(
                    self@.entries,
                    strs_view(keys@),
                    now,
                ),
    {
        let now = self.clock.peek();
        self.exists_multi_at(keys, now)
    }

    /// One sweep for expired entries at the clock's next reading.
    pub fn cleanup_expired(&mut self) -> (n: usize)
        ensures
            final(self).time() >= old(self).time(),
            final(self).settings() == old(self).settings(),
            final(self).shards() == old(self).shards(),
            (final(self)@, n as nat) == old(self)@.swept().purged(
                old(self).sample(),
                final(self).time(),
            ),
            old(self)@.is_sample(old(self).sample()),
            old(self)@.sweeps_to(final(self).time(), final(self)@, n as nat),
            old(self)@.well_formed() ==> final(self)@.well_formed(),
    {
        let now = self.clock.tick();
        self.cleanup_expired_at(now)
    }

    /// The number of shards that the store is divided into. Every key of
    /// every shard is a stored key.
    pub fn shard_count(&self) -> (n: usize)
        ensures
            n == self.shards(),
            forall|index: nat, at: int|
                index < self.shards() && 0 <= at < self.shard(index).len() ==> self@.holds(
                    #[trigger] self.shard(index)[at],
                ),
    {
        let n = store_shards(&self.data);
        proof {
            assert forall|index: nat, at: int|
                index < self.shards() && 0 <= at < self.shard(index).len() implies self@.holds(
                #[trigger] self.shard(index)[at],
            ) by {
                lemma_shards_hold_stored(self.data, index, at);
            }
        }
        n
    }

    /// Reads the clock.
    pub fn now(&mut self) -> (now: u128)
        ensures
            now == final(self).time(),
            now >= old(self).time(),
            final(self)@ == old(self)@,
            final(self).settings() == old(self).settings(),
            final(self).shards() == old(self).shards(),
    {
        self.clock.tick()
    }

    /// Drops every entry and the accounted bytes; the counters stay.
    pub fn flush_all(&mut self)
        ensures
            final(self)@ == old(self)@.flushed(),
            final(self).settings() == old(self).settings(),
            final(self).shards() == old(self).shards(),
            final(self).time() == old(self).time(),
            old(self)@.well_formed() ==> final(self)@.well_formed(),
    {
        proof {
            if old(self)@.well_formed() {
                law_flush_keeps_well_formed(old(self)@);
            }
        }
        store_clear(&mut self.data);
        self.stats.memory_usage = 0;
    }

    /// Reads `key` at `now`.
    pub fn get_at(&mut self, key: &str, now: u128) -> (r: Option<Value>)
        ensures
            (final(self)@, opt_value(r)) == old(self)@.get_at(key@, now),
            final(self).settings() == old(self).settings(),
            final(self).shards() == old(self).shards(),
            final(self).time() == old(self).time(),
            old(self)@.well_formed() ==> final(self)@.well_formed(),
    {
        proof {
            if old(self)@.well_formed() {
                law_read_keeps_well_formed(old(self)@, key@, now);
            }
        }
        match store_link(&self.data, key) {
            None => {
                self.stats.misses = self.stats.misses.saturating_add(1);
                None
            },
            Some(link) => {
                if !link_is_valid(&self.data, &link.ttl, &link.parent, now) {
                    self.stats.misses = self.stats.misses.saturating_add(1);
                    match store_remove(&mut self.data, key) {
                        Some(pair) => {
                            let freed = pair.1.charge_under(pair.0.as_str());
                            self.stats.memory_usage = self.stats.memory_usage.wrapping_sub(freed);
                        },
                        None => {},
                    }
                    None
                } else {
                    match store_remove(&mut self.data, key) {
                        Some(pair) => {
                            let mut entry = pair.1;
                            entry.mark_accessed(now);
                            let value = entry.value.clone();
                            store_insert(&mut self.data, pair.0, entry);
                            self.stats.hits = self.stats.hits.saturating_add(1);
                            assert(final(self)@.entries =~= old(self)@.entries.insert(
                                key@,
                                old(self)@.entries[key@].accessed(now),
                            ));
                            Some(value)
                        },
                        None => None,
                    }
                }
            },
        }
    }
}

} // verus!
