//! Entries: a value with its expiry, its parent and its access record.

use vstd::prelude::*;
use crate::text::byte_len;
use crate::text::text_len;
use crate::ttl::lapsed;
use crate::ttl::Ttl;
use crate::value::add_saturating;
use crate::value::saturate;
use crate::value::Value;
use crate::value::ValueModel;

verus! {

/// Bytes charged for an entry's own fields, on top of its value and parent key.
pub const ENTRY_OVERHEAD: usize = 160;

/// A stored value with its expiry, its parent and its access record.
#[derive(Debug)]
pub struct Entry {
    pub value: Value,
    pub ttl: Option<Ttl>,
    pub parent: Option<String>,
    pub access_count: u64,
    pub last_accessed: u128,
    pub created_at: u128,
}

/// The mathematical content of an [`Entry`].
pub struct EntryModel {
    pub value: ValueModel,
    pub ttl: Option<Ttl>,
    pub parent: Option<Seq<char>>,
    pub access_count: u64,
    pub last_accessed: u128,
    pub created_at: u128,
}

/// The content of an optional text.
pub open spec fn opt_text(s: Option<String>) -> Option<Seq<char>> {
    match s {
        Some(t) => Some(t@),
        None => None,
    }
}

impl View for Entry {
    type V = EntryModel;

    open spec fn view(&self) -> EntryModel {
        EntryModel {
            value: self.value@,
            ttl: self.ttl,
            parent: opt_text(self.parent),
            access_count: self.access_count,
            last_accessed: self.last_accessed,
            created_at: self.created_at,
        }
    }
}

impl EntryModel {
    /// An entry is never read before it is made.
    pub open spec fn well_formed(self) -> bool {
        self.created_at <= self.last_accessed
    }

    /// A fresh entry made at `now`.
    pub open spec fn fresh(
        value: ValueModel,
        ttl: Option<Ttl>,
        parent: Option<Seq<char>>,
        now: u128,
    ) -> EntryModel {
        EntryModel { value, ttl, parent, access_count: 0, last_accessed: now, created_at: now }
    }

    /// Whether the entry's own expiry has come at `now`.
    pub open spec fn lapsed_at(self, now: u128) -> bool {
        lapsed(self.ttl, now)
    }

    /// The entry after a read at `now`: one more access, read no earlier than
    /// before, and a sliding expiry moved.
    pub open spec fn accessed(self, now: u128) -> EntryModel {
        EntryModel {
            access_count: if self.access_count == u64::MAX {
                u64::MAX
            } else {
                (self.access_count + 1) as u64
            },
            last_accessed: if now > self.last_accessed {
                now
            } else {
                self.last_accessed
            },
            ttl: match self.ttl {
                Some(t) => Some(t.reset_at(now)),
                None => None,
            },
            ..self
        }
    }

    /// Bytes charged for the entry: its overhead, its value and its parent key.
    pub open spec fn size(self) -> nat {
        ENTRY_OVERHEAD as nat + self.value.size() + match self.parent {
            Some(p) => byte_len(p),
            None => 0,
        }
    }
}

/// Bytes charged for an entry under its key, stopping at the largest `usize`.
pub open spec fn charge(key: Seq<char>, entry: EntryModel) -> usize {
    saturate(byte_len(key) + entry.size())
}

impl Clone for Entry {
    fn clone(&self) -> (e: Entry)
        ensures
            e@ == self@,
    {
        Entry {
            value: self.value.clone(),
            ttl: self.ttl,
            parent: match &self.parent {
                Some(p) => Some(p.clone()),
                None => None,
            },
            access_count: self.access_count,
            last_accessed: self.last_accessed,
            created_at: self.created_at,
        }
    }
}

impl Entry {
    /// A fresh entry without expiry or parent.
    pub fn new(value: Value, now: u128) -> (e: Entry)
        ensures
            e@ == EntryModel::fresh(value@, None, None, now),
    {
        Entry { value, ttl: None, parent: None, access_count: 0, last_accessed: now, created_at: now }
    }

    /// A fresh entry with an expiry.
    pub fn with_ttl(value: Value, ttl: Ttl, now: u128) -> (e: Entry)
        ensures
            e@ == EntryModel::fresh(value@, Some(ttl), None, now),
    {
        Entry {
            value,
            ttl: Some(ttl),
            parent: None,
            access_count: 0,
            last_accessed: now,
            created_at: now,
        }
    }

    /// A fresh entry with a parent.
    pub fn with_parent(value: Value, parent: String, now: u128) -> (e: Entry)
        ensures
            e@ == EntryModel::fresh(value@, None, Some(parent@), now),
    {
        Entry {
            value,
            ttl: None,
            parent: Some(parent),
            access_count: 0,
            last_accessed: now,
            created_at: now,
        }
    }

    /// Records a read at `now`.
    pub fn mark_accessed(&mut self, now: u128)
        ensures
            final(self)@ == old(self)@.accessed(now),
    {
        self.access_count = self.access_count.saturating_add(1);
        if now > self.last_accessed {
            self.last_accessed = now;
        }
        match self.ttl {
            Some(mut t) => {
                t.reset(now);
                self.ttl = Some(t);
            },
            None => {},
        }
    }

    /// Bytes charged for the entry, stopping at the largest `usize`.
    pub fn memory_usage(&self) -> (r: usize)
        ensures
            r == saturate(self@.size()),
    {
        let own = add_saturating(ENTRY_OVERHEAD, self.value.memory_usage());
        match &self.parent {
            Some(p) => add_saturating(own, text_len(p.as_str())),
            None => own,
        }
    }

    /// Bytes charged for the entry under `key`, stopping at the largest `usize`.
    pub fn charge_under(&self, key: &str) -> (r: usize)
        ensures
            r == charge(key@, self@),
    {
        add_saturating(text_len(key), self.memory_usage())
    }
}

} // verus!
