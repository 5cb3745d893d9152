//! What holds of the cache whatever is done with it, proved over the model.

use vstd::prelude::*;
use crate::cache::Config;
use crate::cache::pattern_matches;
use crate::cache::SetOptionsModel;
use crate::cache_errors::Fault;
use crate::entry::EntryModel;
use crate::model::acyclic;
use crate::model::CacheModel;
use crate::model::chain_valid;
use crate::model::climbs;
use crate::model::entry_valid;
use crate::model::expiry_for;
use crate::model::key_valid;
use crate::model::parent_of;
use crate::model::walk_meets;
use crate::model::would_cycle;
use crate::ttl::deadline;
use crate::ttl::NANOS_PER_SECOND;
use crate::value::ValueModel;

verus! {

broadcast use vstd::seq::group_seq_axioms, vstd::map::group_map_axioms, vstd::set::group_set_axioms;

/// Two climbs in a row are one climb.
pub proof fn lemma_climb_joins(
    entries: Map<Seq<char>, EntryModel>,
    a: Seq<char>,
    first: nat,
    b: Seq<char>,
    second: nat,
    c: Seq<char>,
)
    requires
        climbs(entries, a, first, b),
        climbs(entries, b, second, c),
    ensures
        climbs(entries, a, first + second, c),
    decreases first,
{
    if first > 0 {
        lemma_climb_joins(
            entries,
            parent_of(entries, a)->0,
            (first - 1) as nat,
            b,
            second,
            c,
        );
    }
}

/// A climb that passes a key goes on from that key.
pub proof fn lemma_climb_splits(
    entries: Map<Seq<char>, EntryModel>,
    a: Seq<char>,
    whole: nat,
    c: Seq<char>,
    first: nat,
    b: Seq<char>,
)
    requires
        climbs(entries, a, whole, c),
        climbs(entries, a, first, b),
        first <= whole,
    ensures
        climbs(entries, b, (whole - first) as nat, c),
    decreases first,
{
    if first > 0 {
        lemma_climb_splits(
            entries,
            parent_of(entries, a)->0,
            (whole - 1) as nat,
            c,
            (first - 1) as nat,
            b,
        );
    }
}

/// The walk up from a key meets every key that a climb from it reaches.
pub proof fn lemma_walk_meets_climbed(
    entries: Map<Seq<char>, EntryModel>,
    from: Seq<char>,
    steps: nat,
    target: Seq<char>,
    fuel: nat,
)
    requires
        climbs(entries, from, steps, target),
    ensures
        walk_meets(entries, target, from, fuel),
    decreases steps,
{
    if steps > 0 && fuel > 0 && from != target {
        lemma_walk_meets_climbed(
            entries,
            parent_of(entries, from)->0,
            (steps - 1) as nat,
            target,
            (fuel - 1) as nat,
        );
    }
}

/// A climb in a store where only `key` has changed is a climb in the store
/// before, or passes `key` by links of the store before.
pub proof fn lemma_climb_before(
    before: Map<Seq<char>, EntryModel>,
    key: Seq<char>,
    entry: EntryModel,
    from: Seq<char>,
    steps: nat,
    top: Seq<char>,
)
    requires
        climbs(before.insert(key, entry), from, steps, top),
    ensures
        climbs(before, from, steps, top) || exists|j: nat|
            j < steps && climbs(before, from, j, key) && climbs(
                before.insert(key, entry),
                from,
                j,
                key,
            ),
    decreases steps,
{
    let after = before.insert(key, entry);
    if steps > 0 {
        if from == key {
            assert(climbs(before, from, 0, key) && climbs(after, from, 0, key));
        } else {
            assert(parent_of(after, from) == parent_of(before, from));
            let up = parent_of(before, from)->0;
            lemma_climb_before(before, key, entry, up, (steps - 1) as nat, top);
            if !climbs(before, up, (steps - 1) as nat, top) {
                let j = choose|j: nat|
                    j < steps - 1 && climbs(before, up, j, key) && climbs(after, up, j, key);
                assert(climbs(before, from, j + 1, key) && climbs(after, from, j + 1, key));
            }
        }
    }
}

/// Giving a key a parent that the cycle check lets pass leaves a store
/// without cycles without cycles.
pub proof fn lemma_checked_link_keeps_acyclic(
    before: Map<Seq<char>, EntryModel>,
    key: Seq<char>,
    entry: EntryModel,
    parent: Seq<char>,
)
    requires
        acyclic(before),
        entry.parent == Some(parent),
        !would_cycle(before, key, parent),
    ensures
        acyclic(before.insert(key, entry)),
{
    let after = before.insert(key, entry);
    assert forall|k: Seq<char>, n: nat| n > 0 implies !#[trigger] climbs(after, k, n, k) by {
        if climbs(after, k, n, k) {
            lemma_climb_before(before, key, entry, k, n, k);
            assert(!climbs(before, k, n, k));
            let j = choose|j: nat| j < n && climbs(before, k, j, key) && climbs(after, k, j, key);
            lemma_climb_splits(after, k, n, k, j, key);
            lemma_climb_joins(after, key, (n - j) as nat, k, j, key);
            assert(climbs(after, key, n, key));
            assert(parent_of(after, key) == Some(parent));
            assert(climbs(after, parent, (n - 1) as nat, key));
            lemma_climb_before(before, key, entry, parent, (n - 1) as nat, key);
            if climbs(before, parent, (n - 1) as nat, key) {
                lemma_walk_meets_climbed(before, parent, (n - 1) as nat, key, before.dom().len());
            } else {
                let i = choose|i: nat|
                    i < n - 1 && climbs(before, parent, i, key) && climbs(after, parent, i, key);
                lemma_walk_meets_climbed(before, parent, i, key, before.dom().len());
            }
            assert(false);
        }
    }
}

/// The keys that a climb of `steps` links from `key` takes a link from.
pub open spec fn trail(entries: Map<Seq<char>, EntryModel>, key: Seq<char>, steps: nat) -> Seq<
    Seq<char>,
>
    decreases steps,
{
    if steps == 0 {
        Seq::empty()
    } else {
        seq![key] + trail(entries, parent_of(entries, key)->0, (steps - 1) as nat)
    }
}

/// Whether a climb of `steps` links from `key` is possible, wherever it leads.
pub open spec fn can_climb(entries: Map<Seq<char>, EntryModel>, key: Seq<char>, steps: nat) -> bool {
    exists|top: Seq<char>| climbs(entries, key, steps, top)
}

/// A climb takes a link from as many keys as it has links; each of them
/// is stored and is reached from the start by fewer links.
pub proof fn lemma_trail(
    entries: Map<Seq<char>, EntryModel>,
    key: Seq<char>,
    steps: nat,
    top: Seq<char>,
)
    requires
        climbs(entries, key, steps, top),
    ensures
        trail(entries, key, steps).len() == steps,
        forall|i: int|
            0 <= i < steps ==> entries.dom().contains(#[trigger] trail(entries, key, steps)[i])
                && climbs(entries, key, i as nat, trail(entries, key, steps)[i]),
    decreases steps,
{
    if steps > 0 {
        let up = parent_of(entries, key)->0;
        lemma_trail(entries, up, (steps - 1) as nat, top);
        let rest = trail(entries, up, (steps - 1) as nat);
        let all = trail(entries, key, steps);
        assert forall|i: int| 0 <= i < steps implies entries.dom().contains(#[trigger] all[i])
            && climbs(entries, key, i as nat, all[i]) by {
            if i > 0 {
                assert(all[i] == rest[i - 1]);
                assert(climbs(entries, up, (i - 1) as nat, rest[i - 1]));
            }
        }
    }
}

/// A climb with more links than there are stored keys passes a key twice.
pub proof fn lemma_long_climb_repeats(
    entries: Map<Seq<char>, EntryModel>,
    key: Seq<char>,
    steps: nat,
    top: Seq<char>,
)
    requires
        entries.dom().finite(),
        climbs(entries, key, steps, top),
        steps > entries.dom().len(),
    ensures
        !acyclic(entries),
{
    lemma_trail(entries, key, steps, top);
    let t = trail(entries, key, steps);
    if t.no_duplicates() {
        t.unique_seq_to_set();
        assert(t.to_set().subset_of(entries.dom())) by {
            assert forall|k: Seq<char>| t.to_set().contains(k) implies entries.dom().contains(k) by {
                let i = choose|i: int| 0 <= i < t.len() && t[i] == k;
                assert(entries.dom().contains(t[i]));
            }
        }
        vstd::set_lib::lemma_len_subset(t.to_set(), entries.dom());
        assert(false);
    } else {
        let (i, j) = choose|i: int, j: int| 0 <= i < t.len() && 0 <= j < t.len() && i != j && t[i] == t[j];
        let (a, b) = if i < j {
            (i, j)
        } else {
            (j, i)
        };
        assert(climbs(entries, key, a as nat, t[a]));
        assert(climbs(entries, key, b as nat, t[b]));
        lemma_climb_splits(entries, key, b as nat, t[b], a as nat, t[a]);
        assert(climbs(entries, t[a], (b - a) as nat, t[a]));
    }
}

/// Where the walk up from a key meets a target, a climb from the key
/// reaches the target within the fuel, or the walk has followed more
/// links than it had fuel.
pub proof fn lemma_walk_met(
    entries: Map<Seq<char>, EntryModel>,
    target: Seq<char>,
    from: Seq<char>,
    fuel: nat,
)
    requires
        walk_meets(entries, target, from, fuel),
    ensures
        (exists|n: nat| n <= fuel && climbs(entries, from, n, target)) || can_climb(
            entries,
            from,
            fuel + 1,
        ),
    decreases fuel,
{
    if from == target {
        assert(climbs(entries, from, 0, target));
    } else {
        let up = parent_of(entries, from)->0;
        if fuel == 0 {
            assert(climbs(entries, up, 0, up));
            assert(climbs(entries, from, 1, up));
        } else {
            lemma_walk_met(entries, target, up, (fuel - 1) as nat);
            if exists|n: nat| n <= fuel - 1 && climbs(entries, up, n, target) {
                let n = choose|n: nat| n <= fuel - 1 && climbs(entries, up, n, target);
                assert(climbs(entries, from, n + 1, target));
            } else {
                let top = choose|top: Seq<char>| climbs(entries, up, fuel, top);
                assert(climbs(entries, from, fuel + 1, top));
            }
        }
    }
}

/// A climb in a store is, up to the first time it passes `key`, a climb
/// in every store that differs from it at `key` alone.
pub proof fn lemma_climb_after(
    before: Map<Seq<char>, EntryModel>,
    key: Seq<char>,
    entry: EntryModel,
    from: Seq<char>,
    steps: nat,
)
    requires
        climbs(before, from, steps, key),
    ensures
        exists|n: nat| n <= steps && climbs(before.insert(key, entry), from, n, key),
    decreases steps,
{
    let after = before.insert(key, entry);
    if from == key {
        assert(climbs(after, from, 0, key));
    } else {
        assert(parent_of(after, from) == parent_of(before, from));
        let up = parent_of(before, from)->0;
        lemma_climb_after(before, key, entry, up, (steps - 1) as nat);
        let n = choose|n: nat| n <= steps - 1 && climbs(after, up, n, key);
        assert(climbs(after, from, n + 1, key));
    }
}

/// In a well-formed store the cycle check refuses a parent exactly where
/// the link would close a cycle.
pub proof fn law_cycle_check_is_exact(
    entries: Map<Seq<char>, EntryModel>,
    key: Seq<char>,
    entry: EntryModel,
    parent: Seq<char>,
)
    requires
        entries.dom().finite(),
        acyclic(entries),
        entry.parent == Some(parent),
    ensures
        would_cycle(entries, key, parent) <==> !acyclic(entries.insert(key, entry)),
{
    let after = entries.insert(key, entry);
    if !would_cycle(entries, key, parent) {
        lemma_checked_link_keeps_acyclic(entries, key, entry, parent);
    } else {
        assert(parent_of(after, key) == Some(parent));
        if key == parent {
            assert(climbs(after, key, 0, key));
            assert(climbs(after, key, 1, key));
        } else {
            lemma_walk_met(entries, key, parent, entries.dom().len());
            if exists|n: nat| n <= entries.dom().len() && climbs(entries, parent, n, key) {
                let n = choose|n: nat| n <= entries.dom().len() && climbs(entries, parent, n, key);
                lemma_climb_after(entries, key, entry, parent, n);
                let m = choose|m: nat| m <= n && climbs(after, parent, m, key);
                assert(climbs(after, key, m + 1, key));
            } else {
                let long = entries.dom().len() + 1;
                let top = choose|top: Seq<char>| climbs(entries, parent, long, top);
                lemma_long_climb_repeats(entries, parent, long, top);
            }
        }
    }
}

/// More fuel keeps a chain valid.
pub proof fn lemma_more_fuel(
    entries: Map<Seq<char>, EntryModel>,
    key: Seq<char>,
    now: u128,
    fuel: nat,
)
    requires
        chain_valid(entries, key, now, fuel),
    ensures
        chain_valid(entries, key, now, fuel + 1),
    decreases fuel,
{
    if entries[key].parent is Some && fuel > 0 {
        lemma_more_fuel(entries, entries[key].parent->0, now, (fuel - 1) as nat);
    }
}

/// A chain that is valid with one more link of fuel and not without it
/// has more links than the fuel.
pub proof fn lemma_fuel_ran_out(
    entries: Map<Seq<char>, EntryModel>,
    key: Seq<char>,
    now: u128,
    fuel: nat,
)
    requires
        chain_valid(entries, key, now, fuel + 1),
        !chain_valid(entries, key, now, fuel),
    ensures
        can_climb(entries, key, fuel + 1),
    decreases fuel,
{
    let up = entries[key].parent->0;
    assert(parent_of(entries, key) == Some(up));
    if fuel == 0 {
        assert(climbs(entries, up, 0, up));
        assert(climbs(entries, key, 1, up));
    } else {
        lemma_fuel_ran_out(entries, up, now, (fuel - 1) as nat);
        let top = choose|top: Seq<char>| climbs(entries, up, fuel, top);
        assert(climbs(entries, key, fuel + 1, top));
    }
}

/// In a well-formed cache a key is valid exactly if it is stored, its own
/// expiry has not come, and it has no parent or a valid one.
pub proof fn law_validity_unfolds(m: CacheModel, key: Seq<char>, now: u128)
    requires
        m.well_formed(),
    ensures
        key_valid(m.entries, key, now) <==> m.holds(key) && !m.entries[key].lapsed_at(now) && (
        match m.entries[key].parent {
            None => true,
            Some(p) => key_valid(m.entries, p, now),
        }),
{
    let entries = m.entries;
    let all = entries.dom().len();
    if m.holds(key) && entries[key].parent is Some {
        let p = entries[key].parent->0;
        assert(parent_of(entries, key) == Some(p));
        if entries.dom().contains(p) && entries[p].parent is Some {
            let pp = entries[p].parent->0;
            assert(parent_of(entries, p) == Some(pp));
            assert(all > 0);
            // the chain above the parent is as valid with one link less of fuel
            if chain_valid(entries, pp, now, all) && !chain_valid(
                entries,
                pp,
                now,
                (all - 1) as nat,
            ) {
                lemma_fuel_ran_out(entries, pp, now, (all - 1) as nat);
                let top = choose|top: Seq<char>| climbs(entries, pp, all, top);
                assert(climbs(entries, p, all + 1, top));
                lemma_long_climb_repeats(entries, p, all + 1, top);
            }
            if chain_valid(entries, pp, now, (all - 1) as nat) {
                lemma_more_fuel(entries, pp, now, (all - 1) as nat);
            }
        }
    }
}

/// A climb in a store is a climb in every store that has all its links.
pub proof fn lemma_climb_in_larger(
    smaller: Map<Seq<char>, EntryModel>,
    larger: Map<Seq<char>, EntryModel>,
    from: Seq<char>,
    steps: nat,
    top: Seq<char>,
)
    requires
        forall|x: Seq<char>|
            parent_of(smaller, x) is Some ==> parent_of(larger, x) == parent_of(smaller, x),
        climbs(smaller, from, steps, top),
    ensures
        climbs(larger, from, steps, top),
    decreases steps,
{
    if steps > 0 {
        lemma_climb_in_larger(
            smaller,
            larger,
            parent_of(smaller, from)->0,
            (steps - 1) as nat,
            top,
        );
    }
}

/// Taking links away from a store without cycles leaves it without cycles.
pub proof fn lemma_fewer_links_keep_acyclic(
    before: Map<Seq<char>, EntryModel>,
    after: Map<Seq<char>, EntryModel>,
)
    requires
        acyclic(before),
        forall|x: Seq<char>|
            parent_of(after, x) is Some ==> parent_of(before, x) == parent_of(after, x),
    ensures
        acyclic(after),
{
    assert forall|k: Seq<char>, n: nat| n > 0 implies !#[trigger] climbs(after, k, n, k) by {
        if climbs(after, k, n, k) {
            lemma_climb_in_larger(after, before, k, n, k);
        }
    }
}

/// Removing keys one after the other keeps a cache well formed, and takes
/// nothing but these keys from it.
pub proof fn lemma_dropped(m: CacheModel, keys: Seq<Seq<char>>)
    requires
        m.well_formed(),
    ensures
        m.dropped(keys).0.well_formed(),
        m.dropped(keys).1 <= keys.len(),
        m.dropped(keys).0.entries.dom().len() + m.dropped(keys).1 == m.entries.dom().len(),
        m.dropped(keys).0.stats.hits == m.stats.hits,
        m.dropped(keys).0.stats.misses == m.stats.misses,
        m.dropped(keys).0.stats.sets == m.stats.sets,
        m.dropped(keys).0.stats.deletes == m.stats.deletes,
        m.dropped(keys).0.cursor == m.cursor,
        forall|k: Seq<char>|
            m.dropped(keys).0.holds(k) <==> m.holds(k) && !keys.contains(k),
        forall|k: Seq<char>|
            m.dropped(keys).0.holds(k) ==> m.dropped(keys).0.entries[k] == m.entries[k],
    decreases keys.len(),
{
    if keys.len() > 0 {
        let front = keys.drop_last();
        let last = keys.last();
        lemma_dropped(m, front);
        let mid = m.dropped(front).0;
        assert forall|k: Seq<char>| keys.contains(k) <==> front.contains(k) || k == last by {
            if keys.contains(k) {
                let i = choose|i: int| 0 <= i < keys.len() && keys[i] == k;
                if i < keys.len() - 1 {
                    assert(front[i] == k);
                }
            }
            if front.contains(k) {
                let i = choose|i: int| 0 <= i < front.len() && front[i] == k;
                assert(keys[i] == k);
            }
            if k == last {
                assert(keys[keys.len() - 1] == k);
            }
        }
        if mid.holds(last) {
            lemma_fewer_links_keep_acyclic(mid.entries, mid.entries.remove(last));
        }
    }
}

/// A sweep removes only stored keys whose expiry has come: every other
/// key keeps its entry, and the number of keys falls by the number removed.
pub proof fn law_sweep_spares_the_living(m: CacheModel, now: u128, after: CacheModel, removed: nat)
    requires
        m.well_formed(),
        m.sweeps_to(now, after, removed),
    ensures
        after.well_formed(),
        after.entries.dom().len() + removed == m.entries.dom().len(),
        removed <= crate::model::NUM_SAMPLES,
        after.stats.deletes == crate::stats::raised(m.stats.deletes, removed),
        forall|k: Seq<char>| after.holds(k) ==> m.holds(k) && after.entries[k] == m.entries[k],
        forall|k: Seq<char>|
            m.holds(k) && !(m.entries[k].ttl is Some && m.entries[k].lapsed_at(now))
                ==> after.holds(k),
{
    let sampled = choose|sampled: Seq<Seq<char>>|
        m.is_sample(sampled) && #[trigger] m.swept().purged(sampled, now) == (after, removed);
    let doomed = crate::model::expired_among(m.entries, sampled, now);
    lemma_dropped(m.swept(), doomed);
    lemma_expired_among(m.entries, sampled, now);
    let left = m.swept().dropped(doomed).0;
    assert(after.entries == left.entries);
    assert forall|k: Seq<char>| after.holds(k) implies m.holds(k) && after.entries[k]
        == m.entries[k] by {
        assert(left.holds(k));
        assert(m.swept().holds(k) && !doomed.contains(k));
        assert(left.entries[k] == m.swept().entries[k]);
    }
    assert forall|k: Seq<char>|
        m.holds(k) && !(m.entries[k].ttl is Some && m.entries[k].lapsed_at(
            now,
        )) implies after.holds(k) by {
        if doomed.contains(k) {
            assert(m.entries[k].ttl is Some && m.entries[k].lapsed_at(now));
        }
        assert(m.swept().holds(k) && !doomed.contains(k));
        assert(left.holds(k));
    }
}

/// Of a shard with fewer keys than a sweep samples, the sweep looks at
/// every key, and leaves none stored whose expiry has come.
pub proof fn law_small_shard_is_swept(
    m: CacheModel,
    turn: Seq<Seq<char>>,
    counter: usize,
    now: u128,
    key: Seq<char>,
)
    requires
        m.well_formed(),
        turn.len() < crate::model::NUM_SAMPLES,
        turn.contains(key),
        m.holds(key),
        m.entries[key].ttl is Some,
        m.entries[key].lapsed_at(now),
    ensures
        crate::model::sample_of(turn, counter) == turn,
        !m.swept().purged(turn, now).0.holds(key),
{
    assert(crate::model::sample_of(turn, counter) =~= turn);
    let doomed = crate::model::expired_among(m.entries, turn, now);
    lemma_expired_found(m.entries, turn, now, key);
    lemma_dropped(m.swept(), doomed);
}

/// A key among `keys` that is stored with an expiry that has come is
/// among those of `keys` whose expiry has come.
pub proof fn lemma_expired_found(
    entries: Map<Seq<char>, EntryModel>,
    keys: Seq<Seq<char>>,
    now: u128,
    key: Seq<char>,
)
    requires
        keys.contains(key),
        entries.dom().contains(key),
        entries[key].ttl is Some,
        entries[key].lapsed_at(now),
    ensures
        crate::model::expired_among(entries, keys, now).contains(key),
    decreases keys.len(),
{
    let all = crate::model::expired_among(entries, keys, now);
    if keys.last() == key {
        assert(all[all.len() - 1] == key);
    } else {
        let front = keys.drop_last();
        let i = choose|i: int| 0 <= i < keys.len() && keys[i] == key;
        assert(front[i] == key);
        lemma_expired_found(entries, front, now, key);
        let before = crate::model::expired_among(entries, front, now);
        let j = choose|j: int| 0 <= j < before.len() && before[j] == key;
        assert(all[j] == key);
    }
}

/// Those of `keys` whose expiry has come are among `keys`, and each is
/// stored with an expiry that has come.
pub proof fn lemma_expired_among(entries: Map<Seq<char>, EntryModel>, keys: Seq<Seq<char>>, now: u128)
    ensures
        crate::model::expired_among(entries, keys, now).len() <= keys.len(),
        forall|k: Seq<char>| #[trigger]
            crate::model::expired_among(entries, keys, now).contains(k) ==> keys.contains(k)
                && entries.dom().contains(k) && entries[k].ttl is Some && entries[k].lapsed_at(
                now,
            ),
    decreases keys.len(),
{
    if keys.len() > 0 {
        let front = keys.drop_last();
        lemma_expired_among(entries, front, now);
        let before = crate::model::expired_among(entries, front, now);
        let all = crate::model::expired_among(entries, keys, now);
        assert forall|k: Seq<char>| #[trigger] all.contains(k) implies keys.contains(k)
            && entries.dom().contains(k) && entries[k].ttl is Some && entries[k].lapsed_at(now) by {
            let i = choose|i: int| 0 <= i < all.len() && all[i] == k;
            if i < before.len() {
                assert(before[i] == k);
                assert(before.contains(k));
                let j = choose|j: int| 0 <= j < front.len() && front[j] == k;
                assert(keys[j] == k);
            } else {
                assert(k == keys.last());
                assert(keys[keys.len() - 1] == k);
            }
        }
    }
}

/// A read never takes an entry's record back: it is counted, unless the
/// count is at its largest, it is not dated before an earlier read, and
/// the entry stays as old as it was.
pub proof fn law_access_record_grows(entry: EntryModel, now: u128)
    ensures
        entry.accessed(now).access_count >= entry.access_count,
        entry.access_count < u64::MAX ==> entry.accessed(now).access_count == entry.access_count + 1,
        entry.accessed(now).last_accessed >= entry.last_accessed,
        entry.accessed(now).created_at == entry.created_at,
        entry.accessed(now).value == entry.value,
        entry.accessed(now).parent == entry.parent,
        entry.well_formed() ==> entry.accessed(now).well_formed(),
{
}

/// A read keeps a well-formed cache well formed.
pub proof fn law_read_keeps_well_formed(m: CacheModel, key: Seq<char>, now: u128)
    requires
        m.well_formed(),
    ensures
        m.get_at(key, now).0.well_formed(),
{
    if m.holds(key) {
        if !entry_valid(m.entries, m.entries[key], now) {
            lemma_fewer_links_keep_acyclic(m.entries, m.entries.remove(key));
        } else {
            lemma_fewer_links_keep_acyclic(
                m.entries,
                m.entries.insert(key, m.entries[key].accessed(now)),
            );
        }
    }
}

/// A write keeps a well-formed cache well formed, whether it is made,
/// skipped or refused.
pub proof fn law_write_keeps_well_formed(
    m: CacheModel,
    config: Config,
    key: Seq<char>,
    value: ValueModel,
    options: SetOptionsModel,
    now: u128,
)
    requires
        m.well_formed(),
    ensures
        m.set_at(config, key, value, options, now).0.well_formed(),
{
    let entry = EntryModel::fresh(value, expiry_for(options.ttl, now), options.parent, now);
    if m.set_at(config, key, value, options, now).1 == Ok::<bool, Fault>(true) {
        match options.parent {
            Some(p) => {
                lemma_checked_link_keeps_acyclic(m.entries, key, entry, p);
            },
            None => {
                lemma_fewer_links_keep_acyclic(m.entries, m.entries.insert(key, entry));
            },
        }
    }
}

/// Giving or taking an expiry keeps a well-formed cache well formed.
pub proof fn law_expiry_keeps_well_formed(m: CacheModel, key: Seq<char>, seconds: u64, now: u128)
    requires
        m.well_formed(),
    ensures
        m.expire_at(key, seconds, now).0.well_formed(),
        m.persist(key).0.well_formed(),
{
    if m.holds(key) {
        lemma_fewer_links_keep_acyclic(m.entries, m.expire_at(key, seconds, now).0.entries);
        lemma_fewer_links_keep_acyclic(m.entries, m.persist(key).0.entries);
    }
}

/// Giving a key a parent keeps a well-formed cache well formed, whether
/// the parent is taken or refused.
pub proof fn law_link_keeps_well_formed(
    m: CacheModel,
    config: Config,
    key: Seq<char>,
    parent: Seq<char>,
)
    requires
        m.well_formed(),
    ensures
        m.set_parent(config, key, parent).0.well_formed(),
{
    if m.set_parent(config, key, parent).1 == Ok::<i64, Fault>(1) {
        lemma_checked_link_keeps_acyclic(
            m.entries,
            key,
            EntryModel { parent: Some(parent), ..m.entries[key] },
            parent,
        );
    }
}

/// Deleting keys keeps a well-formed cache well formed; so does deleting
/// those of a sample whose expiry has come.
pub proof fn law_delete_keeps_well_formed(m: CacheModel, keys: Seq<Seq<char>>, now: u128)
    requires
        m.well_formed(),
    ensures
        m.del(keys).0.well_formed(),
        m.purged(keys, now).0.well_formed(),
{
    lemma_dropped(m, keys);
    lemma_dropped(m, crate::model::expired_among(m.entries, keys, now));
}

/// A flush keeps a well-formed cache well formed.
pub proof fn law_flush_keeps_well_formed(m: CacheModel)
    requires
        m.well_formed(),
    ensures
        m.flushed().well_formed(),
{
    lemma_fewer_links_keep_acyclic(m.entries, Map::empty());
}

/// A key that was written without options is read back with the value
/// written, at whatever time.
pub proof fn law_get_after_set(
    m: CacheModel,
    config: Config,
    key: Seq<char>,
    value: ValueModel,
    written_at: u128,
    read_at: u128,
)
    requires
        m.set_at(config, key, value, SetOptionsModel::plain(), written_at).1 == Ok::<bool, Fault>(
            true,
        ),
    ensures
        m.set_at(config, key, value, SetOptionsModel::plain(), written_at).0.get_at(key, read_at).1
            == Some(value),
{
}

/// Deleting a key a second time removes nothing and changes nothing.
pub proof fn law_delete_is_idempotent(m: CacheModel, key: Seq<char>)
    ensures
        m.del(seq![key]).0.del(seq![key]).1 == 0,
        m.del(seq![key]).0.del(seq![key]).0 == m.del(seq![key]).0,
{
    reveal_with_fuel(CacheModel::dropped, 2);
    let once = m.del(seq![key]).0;
    assert(seq![key].drop_last() =~= Seq::<Seq<char>>::empty());
    assert(!once.holds(key));
    assert(once.del(seq![key]).0.stats == once.stats);
}

/// After a stored key was given an expiry of at least one second, its
/// remaining time is reported between zero and that many seconds until
/// the expiry comes, and as exactly that many at the instant it was
/// given. Until the expiry comes the entry has not expired: a read finds
/// the value of an entry without parent.
pub proof fn law_ttl_after_expire(m: CacheModel, key: Seq<char>, seconds: u64, set_at: u128, now: u128)
    requires
        m.holds(key),
        seconds >= 1,
        set_at <= now < deadline(set_at, (seconds * NANOS_PER_SECOND) as u128),
    ensures
        0 <= m.expire_at(key, seconds, set_at).0.ttl_at(key, now) <= seconds,
        deadline(set_at, (seconds * NANOS_PER_SECOND) as u128) < u128::MAX ==> m.expire_at(
            key,
            seconds,
            set_at,
        ).0.ttl_at(key, set_at) == if seconds > i64::MAX {
            i64::MAX
        } else {
            seconds as i64
        },
        !m.expire_at(key, seconds, set_at).0.entries[key].lapsed_at(now),
        m.entries[key].parent is None ==> m.expire_at(key, seconds, set_at).0.get_at(key, now).1
            == Some(m.entries[key].value),
{
    let span = (seconds * NANOS_PER_SECOND) as u128;
    let end = deadline(set_at, span);
    let left = (end - now) as u128;
    assert(left <= span);
    assert(left as int / 1_000_000_000 <= seconds) by (nonlinear_arith)
        requires
            left <= seconds * 1_000_000_000,
    ;
    assert((seconds * 1_000_000_000) / 1_000_000_000 == seconds) by (nonlinear_arith);
}

/// Once its parent is deleted, a key that was written with that parent
/// is not found: a read finds nothing and the key does not count as stored.
pub proof fn law_parent_invalidation(
    m: CacheModel,
    config: Config,
    parent: Seq<char>,
    parent_value: ValueModel,
    child: Seq<char>,
    child_value: ValueModel,
    first_at: u128,
    second_at: u128,
    read_at: u128,
)
    requires
        m.set_at(config, parent, parent_value, SetOptionsModel::plain(), first_at).1 == Ok::<
            bool,
            Fault,
        >(true),
        m.set_at(config, parent, parent_value, SetOptionsModel::plain(), first_at).0.set_at(
            config,
            child,
            child_value,
            SetOptionsModel { parent: Some(parent), ..SetOptionsModel::plain() },
            second_at,
        ).1 == Ok::<bool, Fault>(true),
    ensures
        ({
            let with_parent = m.set_at(
                config,
                parent,
                parent_value,
                SetOptionsModel::plain(),
                first_at,
            ).0;
            let with_child = with_parent.set_at(
                config,
                child,
                child_value,
                SetOptionsModel { parent: Some(parent), ..SetOptionsModel::plain() },
                second_at,
            ).0;
            let orphaned = with_child.del(seq![parent]).0;
            orphaned.get_at(child, read_at).1 == None::<ValueModel> && !key_valid(
                orphaned.entries,
                child,
                read_at,
            )
        }),
{
    reveal_with_fuel(CacheModel::dropped, 2);
    assert(seq![parent].drop_last() =~= Seq::<Seq<char>>::empty());
}

/// A write that would close a cycle in a store without cycles is refused
/// as a cycle and changes nothing, whether it is made by `set` or by `set_parent`.
pub proof fn law_cycle_is_refused(
    m: CacheModel,
    config: Config,
    key: Seq<char>,
    value: ValueModel,
    options: SetOptionsModel,
    parent: Seq<char>,
    now: u128,
)
    requires
        acyclic(m.entries),
        config.enable_dependencies,
        m.holds(parent),
        options.parent == Some(parent),
        !m.set_skips(key, options),
        !acyclic(
            m.entries.insert(
                key,
                EntryModel::fresh(value, expiry_for(options.ttl, now), Some(parent), now),
            ),
        ),
    ensures
        m.set_at(config, key, value, options, now) == (
            m,
            Err::<bool, Fault>(Fault::DependencyCycle(key, parent)),
        ),
        m.set_parent(config, key, parent) == (
            m,
            Err::<i64, Fault>(Fault::DependencyCycle(key, parent)),
        ),
{
    if !would_cycle(m.entries, key, parent) {
        lemma_checked_link_keeps_acyclic(
            m.entries,
            key,
            EntryModel::fresh(value, expiry_for(options.ttl, now), Some(parent), now),
            parent,
        );
    }
}

/// A write that is refused changes nothing: not the stored keys, not the
/// accounted bytes, not a counter.
pub proof fn law_refusal_changes_nothing(
    m: CacheModel,
    config: Config,
    key: Seq<char>,
    value: ValueModel,
    options: SetOptionsModel,
    parent: Seq<char>,
    now: u128,
)
    ensures
        m.set_at(config, key, value, options, now).1 is Err ==> m.set_at(
            config,
            key,
            value,
            options,
            now,
        ).0 == m,
        m.set_parent(config, key, parent).1 is Err ==> m.set_parent(config, key, parent).0 == m,
{
}

/// A flush leaves no key and no accounted byte, and every counter as it was.
pub proof fn law_flush_keeps_counters(m: CacheModel)
    ensures
        m.flushed().entries.dom().len() == 0,
        m.flushed().stats.memory_usage == 0,
        m.flushed().stats.hits == m.stats.hits,
        m.flushed().stats.misses == m.stats.misses,
        m.flushed().stats.sets == m.stats.sets,
        m.flushed().stats.deletes == m.stats.deletes,
{
}

/// In a store without cycles a key is below another at one depth only,
/// so the depth that a listing of descendants gives is the least.
pub proof fn law_depth_is_unique(
    entries: Map<Seq<char>, EntryModel>,
    key: Seq<char>,
    top: Seq<char>,
    one: nat,
    other: nat,
)
    requires
        acyclic(entries),
        climbs(entries, key, one, top),
        climbs(entries, key, other, top),
    ensures
        one == other,
{
    if one < other {
        lemma_climb_splits(entries, key, other, top, one, top);
        assert(climbs(entries, top, (other - one) as nat, top));
    } else if other < one {
        lemma_climb_splits(entries, key, one, top, other, top);
        assert(climbs(entries, top, (one - other) as nat, top));
    }
}

/// A lone asterisk matches every stored key, and a prefix followed by an
/// asterisk matches the stored keys that begin with the prefix and no other.
pub proof fn law_patterns(m: CacheModel, prefix: Seq<char>)
    ensures
        m.matching(seq!['*']) == m.entries.dom(),
        m.matching(prefix.push('*')) == m.entries.dom().filter(
            |k: Seq<char>| prefix.is_prefix_of(k),
        ),
{
    assert(prefix.push('*').drop_last() =~= prefix);
    assert(m.matching(seq!['*']) =~= m.entries.dom());
    assert forall|k: Seq<char>| pattern_matches(k, prefix.push('*')) == prefix.is_prefix_of(k) by {
        if prefix.push('*') == seq!['*'] {
            assert(prefix.len() == 0);
        }
    }
    assert(m.matching(prefix.push('*')) =~= m.entries.dom().filter(
        |k: Seq<char>| prefix.is_prefix_of(k),
    ));
}

} // verus!
