//! The errors of a write.

use vstd::prelude::*;
use vstd::string::*;
use crate::text::owned;

verus! {

broadcast use vstd::seq::group_seq_axioms;

/// Why the cache refused a write.
#[derive(Debug, Clone, PartialEq, Eq)]
pub enum CacheError {
    /// A parent was given while the configuration switches dependencies off.
    DependenciesDisabled,
    /// The parent key is not stored.
    ParentNotFound(String),
    /// Giving the key (first) the parent (second) would close a cycle.
    DependencyCycle(String, String),
    /// The write would take the accounted bytes past the configured limit.
    MemoryLimitExceeded,
    /// The write would add a key past the configured number of keys.
    KeyLimitExceeded,
}

/// The mathematical content of a [`CacheError`].
pub enum Fault {
    DependenciesDisabled,
    ParentNotFound(Seq<char>),
    DependencyCycle(Seq<char>, Seq<char>),
    MemoryLimitExceeded,
    KeyLimitExceeded,
}

impl View for CacheError {
    type V = Fault;

    open spec fn view(&self) -> Fault {
        match *self {
            CacheError::DependenciesDisabled => Fault::DependenciesDisabled,
            CacheError::ParentNotFound(p) => Fault::ParentNotFound(p@),
            CacheError::DependencyCycle(k, p) => Fault::DependencyCycle(k@, p@),
            CacheError::MemoryLimitExceeded => Fault::MemoryLimitExceeded,
            CacheError::KeyLimitExceeded => Fault::KeyLimitExceeded,
        }
    }
}

impl Fault {
    /// The sentence that tells a reader what went wrong.
    pub open spec fn message(self) -> Seq<char> {
        match self {
            Fault::DependenciesDisabled => "Dependencies are disabled in the cache configuration."@,
            Fault::ParentNotFound(p) => "Parent key '"@ + p + "' does not exist."@,
            Fault::DependencyCycle(k, p) => "Setting parent '"@ + p + "' for key '"@ + k
                + "' would create a dependency cycle."@,
            Fault::MemoryLimitExceeded => "Memory limit exceeded."@,
            Fault::KeyLimitExceeded => "Key count limit exceeded."@,
        }
    }
}

impl CacheError {
    /// The sentence that tells a reader what went wrong.
    pub fn message(&self) -> (s: String)
        ensures
            s@ == self@.message(),
    {
        match self {
            CacheError::DependenciesDisabled => owned(
                "Dependencies are disabled in the cache configuration.",
            ),
            CacheError::ParentNotFound(p) => {
                let mut out = owned("Parent key '");
                out.append(p.as_str());
                out.append("' does not exist.");
                out
            },
            CacheError::DependencyCycle(k, p) => {
                let mut out = owned("Setting parent '");
                out.append(p.as_str());
                out.append("' for key '");
                out.append(k.as_str());
                out.append("' would create a dependency cycle.");
                out
            },
            CacheError::MemoryLimitExceeded => owned("Memory limit exceeded."),
            CacheError::KeyLimitExceeded => owned("Key count limit exceeded."),
        }
    }
}

} // verus!
