//! The store. It is a `DashMap` of the `dashmap` crate, and this file is the
//! only place that calls it. Nothing here is proved: each function states
//! what the `dashmap` source shows of the method it calls, over what the map
//! holds ([`stored`]), the number of shards it was made with
//! ([`shard_total`]) and the keys of each shard in the order in which the
//! shard is walked ([`shard_keys`]). The functions that change the map take
//! it by `&mut`, so that what it holds is a matter of the one caller that
//! has it; of the order of a shard after a change they say nothing. The
//! lemmas at the end are proved from the definitions above them.

use vstd::prelude::*;
use dashmap::DashMap;
use crate::entry::Entry;
use crate::entry::EntryModel;
use crate::entry::opt_text;
use crate::ttl::Ttl;
use crate::value::saturate;

verus! {

#[verifier::external_type_specification]
#[verifier::external_body]
#[verifier::reject_recursive_types(K)]
#[verifier::reject_recursive_types(V)]
#[verifier::reject_recursive_types(S)]
pub struct ExDashMap<K, V, S>(DashMap<K, V, S>);

/// What a map holds: each stored key with the content of its entry.
pub uninterp spec fn stored(map: DashMap<String, Entry>) -> Map<Seq<char>, EntryModel>;

/// The number of shards that a map was made with.
pub uninterp spec fn shard_total(map: DashMap<String, Entry>) -> nat;

/// The keys of one shard of a map, in the order in which the shard is walked.
pub uninterp spec fn shard_keys(map: DashMap<String, Entry>, index: nat) -> Seq<Seq<char>>;

/// The keys of the first `upto` shards of a map, shard after shard.
pub open spec fn walked(map: DashMap<String, Entry>, upto: nat) -> Seq<Seq<char>>
    decreases upto,
{
    if upto == 0 {
        Seq::empty()
    } else {
        walked(map, (upto - 1) as nat) + shard_keys(map, (upto - 1) as nat)
    }
}

/// The keys of a map in the order in which the map is walked: shard after shard.
pub open spec fn walk(map: DashMap<String, Entry>) -> Seq<Seq<char>> {
    walked(map, shard_total(map))
}

/// Whether a map has `n` shards, which hold between them each stored key once.
pub open spec fn has_shards(map: DashMap<String, Entry>, n: nat) -> bool {
    &&& n == shard_total(map)
    &&& walk(map).no_duplicates()
    &&& walk(map).to_set() == stored(map).dom()
}

/// What is left of `all` after the first `skip`, up to `take` of it.
pub open spec fn window(all: Seq<Seq<char>>, skip: usize, take: usize) -> Seq<Seq<char>> {
    all.subrange(
        if skip <= all.len() {
            skip as int
        } else {
            all.len() as int
        },
        if skip + take <= all.len() {
            skip + take
        } else {
            all.len() as int
        },
    )
}

/// The keys of what a scan has found.
pub open spec fn scanned_keys(found: Seq<(String, Option<String>)>) -> Seq<Seq<char>> {
    Seq::new(found.len(), |i: int| found[i].0@)
}

/// The content of a map that holds nothing.
pub open spec fn nothing() -> Map<Seq<char>, EntryModel> {
    Map::empty()
}

/// Whether a map's content has exactly `n` keys.
pub open spec fn holds_keys(content: Map<Seq<char>, EntryModel>, n: nat) -> bool {
    content.dom().finite() && content.dom().len() == n
}

/// What ties an entry to the others: its expiry and its parent.
pub struct Link {
    pub ttl: Option<Ttl>,
    pub parent: Option<String>,
}

/// Whether `link` is the expiry and the parent of `entry`.
pub open spec fn links(link: Link, entry: EntryModel) -> bool {
    link.ttl == entry.ttl && opt_text(link.parent) == entry.parent
}

/// `DashMap::new`: a map that holds nothing.
#[verifier::external_body]
pub(crate) fn store_new() -> (map: DashMap<String, Entry>)
    ensures
        stored(map) == nothing(),
{
    DashMap::new()
}

/// `DashMap::len`: the number of stored keys.
#[verifier::external_body]
pub(crate) fn store_len(map: &DashMap<String, Entry>) -> (n: usize)
    ensures
        holds_keys(stored(*map), n as nat),
{
    map.len()
}

/// `DashMap::contains_key`: whether the key is stored.
#[verifier::external_body]
pub(crate) fn store_contains(map: &DashMap<String, Entry>, key: &str) -> (b: bool)
    ensures
        b == stored(*map).dom().contains(key@),
{
    map.contains_key(key)
}

/// `DashMap::get`, handing out the expiry and a copy of the parent key of the
/// entry found: `Some` exactly for a stored key.
#[verifier::external_body]
pub(crate) fn store_link(map: &DashMap<String, Entry>, key: &str) -> (r: Option<Link>)
    ensures
        r is Some == stored(*map).dom().contains(key@),
        r matches Some(link) ==> links(link, stored(*map)[key@]),
{
    map.get(key).map(|found| Link { ttl: found.ttl, parent: found.parent.clone() })
}

/// `DashMap::get`, handing out the bytes charged for the entry found,
/// without its key: `Some` exactly for a stored key.
#[verifier::external_body]
pub(crate) fn store_size(map: &DashMap<String, Entry>, key: &str) -> (r: Option<usize>)
    ensures
        r is Some == stored(*map).dom().contains(key@),
        r matches Some(n) ==> n == saturate(stored(*map)[key@].size()),
{
    map.get(key).map(|found| found.memory_usage())
}

/// `DashMap::insert`: afterwards the key holds the new entry and every other
/// key what it held; the entry that the key held before is handed back.
#[verifier::external_body]
pub(crate) fn store_insert(
    map: &mut DashMap<String, Entry>,
    key: String,
    entry: Entry,
) -> (prior: Option<Entry>)
    ensures
        stored(*final(map)) == stored(*old(map)).insert(key@, entry@),
        shard_total(*final(map)) == shard_total(*old(map)),
        prior is Some == stored(*old(map)).dom().contains(key@),
        prior matches Some(e) ==> e@ == stored(*old(map))[key@],
{
    map.insert(key, entry)
}

/// `DashMap::remove`: afterwards the key is not stored and every other key
/// holds what it held; the key and the entry that were stored are handed back.
#[verifier::external_body]
pub(crate) fn store_remove(map: &mut DashMap<String, Entry>, key: &str) -> (gone: Option<
    (String, Entry),
>)
    ensures
        stored(*final(map)) == stored(*old(map)).remove(key@),
        shard_total(*final(map)) == shard_total(*old(map)),
        gone is Some == stored(*old(map)).dom().contains(key@),
        gone matches Some(pair) ==> pair.0@ == key@ && pair.1@ == stored(*old(map))[key@],
{
    map.remove(key)
}

/// `DashMap::clear`: afterwards nothing is stored.
#[verifier::external_body]
pub(crate) fn store_clear(map: &mut DashMap<String, Entry>)
    ensures
        stored(*final(map)) == nothing(),
        shard_total(*final(map)) == shard_total(*old(map)),
{
    map.clear()
}

/// `DashMap::iter`, passing over the first `skip` entries and handing out at
/// most `take` of the rest, each as its key with its parent key. The keys
/// come as the map is walked, shard after shard: they are the walk from
/// position `skip`, `take` of them or as many as are left. Every item is a
/// stored entry, no key comes twice, and a scan of the whole map leaves no
/// stored key out.
#[verifier::external_body]
pub(crate) fn store_scan(map: &DashMap<String, Entry>, skip: usize, take: usize) -> (found: Vec<
    (String, Option<String>),
>)
    ensures
        scanned_keys(found@) == window(walk(*map), skip, take),
        forall|i: int|
            0 <= i < found@.len() ==> stored(*map).dom().contains(#[trigger] found@[i].0@)
                && opt_text(found@[i].1) == stored(*map)[found@[i].0@].parent,
        forall|i: int, j: int|
            0 <= i < j < found@.len() ==> #[trigger] found@[i].0@ != #[trigger] found@[j].0@,
        skip == 0 && take >= stored(*map).dom().len() ==> forall|k: Seq<char>|
            stored(*map).dom().contains(k) ==> exists|i: int|
                0 <= i < found@.len() && #[trigger] found@[i].0@ == k,
{
    map.iter().skip(skip).take(take).map(
        |item| (item.key().clone(), item.parent.clone()),
    ).collect()
}

/// `DashMap::shards`: the number of shards. Each stored key lies in one
/// shard, once.
#[verifier::external_body]
pub(crate) fn store_shards(map: &DashMap<String, Entry>) -> (n: usize)
    ensures
        has_shards(*map, n as nat),
{
    map.shards().len()
}

/// `DashMap::shards`: the number of entries in shard `index`, which must be
/// one of the map's shards.
#[verifier::external_body]
pub(crate) fn store_shard_len(map: &DashMap<String, Entry>, index: usize) -> (n: usize)
    requires
        index < shard_total(*map),
    ensures
        n == shard_keys(*map, index as nat).len(),
{
    map.shards()[index].read().len()
}

/// The walk of the first shards is where the walk of more shards begins.
pub proof fn lemma_walked_prefix(map: DashMap<String, Entry>, fewer: nat, more: nat)
    requires
        fewer <= more,
    ensures
        walked(map, fewer).len() <= walked(map, more).len(),
        walked(map, more).subrange(0, walked(map, fewer).len() as int) == walked(map, fewer),
    decreases more,
{
    if fewer < more {
        lemma_walked_prefix(map, fewer, (more - 1) as nat);
        let short = walked(map, fewer);
        let mid = walked(map, (more - 1) as nat);
        assert(walked(map, more).subrange(0, short.len() as int) =~= mid.subrange(
            0,
            short.len() as int,
        ));
    } else {
        assert(walked(map, more).subrange(0, walked(map, more).len() as int) =~= walked(map, more));
    }
}

/// A part of a shard is the part of the walk that lies as far behind the
/// shards before it.
pub proof fn lemma_shard_in_walk(map: DashMap<String, Entry>, index: nat, from: int, to: int)
    requires
        index < shard_total(map),
        0 <= from <= to <= shard_keys(map, index).len(),
    ensures
        walked(map, index).len() + to <= walk(map).len(),
        walk(map).subrange(walked(map, index).len() + from, walked(map, index).len() + to)
            == shard_keys(map, index).subrange(from, to),
{
    let before = walked(map, index);
    let with = walked(map, index + 1);
    lemma_walked_prefix(map, index + 1, shard_total(map));
    assert(with =~= before + shard_keys(map, index));
    assert forall|i: int| 0 <= i < with.len() implies #[trigger] walk(map)[i] == with[i] by {
        assert(walk(map).subrange(0, with.len() as int)[i] == walk(map)[i]);
    }
    assert(walk(map).subrange(before.len() + from, before.len() + to) =~= with.subrange(
        before.len() + from,
        before.len() + to,
    ));
    assert(with.subrange(before.len() + from, before.len() + to) =~= shard_keys(
        map,
        index,
    ).subrange(from, to));
}

/// Every key of every shard is a stored key, and the shards hold as many
/// keys as are stored.
pub proof fn lemma_shards_hold_stored(map: DashMap<String, Entry>, index: nat, at: int)
    requires
        has_shards(map, shard_total(map)),
        index < shard_total(map),
        0 <= at < shard_keys(map, index).len(),
    ensures
        stored(map).dom().contains(shard_keys(map, index)[at]),
{
    lemma_shard_in_walk(map, index, at, at + 1);
    let place = walked(map, index).len() + at;
    assert(walk(map).subrange(place, place + 1)[0] == shard_keys(map, index).subrange(at, at + 1)[0]);
    assert(walk(map)[place] == shard_keys(map, index)[at]);
    assert(walk(map).to_set().contains(walk(map)[place]));
}

} // verus!
