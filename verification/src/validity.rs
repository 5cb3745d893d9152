//! Whether an entry is valid: walking up the parents, within bounds.

use vstd::prelude::*;
use dashmap::DashMap;
use crate::entry::Entry;
use crate::model::chain_valid;
use crate::model::entry_valid;
use crate::store::holds_keys;
use crate::store::store_len;
use crate::store::store_link;
use crate::store::stored;
use crate::text::owned;
use crate::ttl::lapsed;
use crate::ttl::Ttl;

verus! {

/// Whether an optional expiry has come at `now`.
pub fn is_lapsed(ttl: &Option<Ttl>, now: u128) -> (b: bool)
    ensures
        b == lapsed(*ttl, now),
{
    match ttl {
        Some(t) => t.is_expired(now),
        None => false,
    }
}

/// Whether `start` and its ancestors are all stored and unexpired at `now`.
pub(crate) fn chain_is_valid(store: &DashMap<String, Entry>, start: &str, now: u128) -> (b: bool)
    ensures
        b == chain_valid(stored(*store), start@, now, stored(*store).dom().len()),
{
    let n = store_len(store);
    let mut fuel: usize = n;
    let mut cur = owned(start);
    loop
        invariant
            holds_keys(stored(*store), n as nat),
            chain_valid(stored(*store), start@, now, n as nat) == chain_valid(
                stored(*store),
                cur@,
                now,
                fuel as nat,
            ),
        decreases fuel,
    {
        match store_link(store, cur.as_str()) {
            None => {
                return false;
            },
            Some(link) => {
                if is_lapsed(&link.ttl, now) {
                    return false;
                }
                match link.parent {
                    None => {
                        return true;
                    },
                    Some(p) => {
                        if fuel == 0 {
                            return false;
                        }
                        fuel = fuel - 1;
                        cur = p;
                    },
                }
            },
        }
    }
}

/// Whether an entry with this expiry and parent is valid at `now`.
pub(crate) fn link_is_valid(
    store: &DashMap<String, Entry>,
    ttl: &Option<Ttl>,
    parent: &Option<String>,
    now: u128,
) -> (b: bool)
    ensures
        b == (!lapsed(*ttl, now) && match *parent {
            None => true,
            Some(p) => chain_valid(stored(*store), p@, now, stored(*store).dom().len()),
        }),
{
    if is_lapsed(ttl, now) {
        return false;
    }
    match parent {
        None => true,
        Some(p) => chain_is_valid(store, p.as_str(), now),
    }
}

impl Entry {
    /// Whether the entry is valid at `now` in a store: not expired itself,
    /// and without a parent or with a parent that is stored and valid.
    pub fn is_valid(&self, cache: &DashMap<String, Entry>, now: u128) -> (b: bool)
        ensures
            b == entry_valid(stored(*cache), self@, now),
    {
        link_is_valid(cache, &self.ttl, &self.parent, now)
    }
}

} // verus!
