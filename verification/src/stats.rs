//! Counters, the gauge of accounted bytes, and their exposition as text.

use vstd::prelude::*;
use vstd::string::*;
use crate::text::decimal;
use crate::text::push_decimal;

verus! {

broadcast use vstd::seq::group_seq_axioms;

/// Counters of what the cache has done, and the bytes it accounts for.
#[derive(Debug, Clone, Copy, PartialEq, Eq, Structural)]
pub struct Stats {
    pub hits: u64,
    pub misses: u64,
    pub sets: u64,
    pub deletes: u64,
    pub memory_usage: usize,
}

/// A counter raised by `by`, stopping at the largest `u64`.
pub open spec fn raised(counter: u64, by: nat) -> u64 {
    if counter + by > u64::MAX {
        u64::MAX
    } else {
        (counter + by) as u64
    }
}

/// The three lines that expose one metric: what it is, its kind, its value.
pub open spec fn metric_text(name: Seq<char>, help: Seq<char>, kind: Seq<char>, value: nat) -> Seq<
    char,
> {
    "# HELP "@ + name + " "@ + help + "\n"@ + "# TYPE "@ + name + " "@ + kind + "\n"@ + name + " "@
        + decimal(value) + "\n"@
}

impl Stats {
    /// The exposition of the five metrics, in their fixed order.
    pub open spec fn rendered(self) -> Seq<char> {
        metric_text("cache_hits_total"@, "Total number of cache hits"@, "counter"@, self.hits as nat)
            + metric_text(
            "cache_misses_total"@,
            "Total number of cache misses"@,
            "counter"@,
            self.misses as nat,
        ) + metric_text(
            "cache_sets_total"@,
            "Total number of SET operations"@,
            "counter"@,
            self.sets as nat,
        ) + metric_text(
            "cache_deletes_total"@,
            "Total number of DELETE operations"@,
            "counter"@,
            self.deletes as nat,
        ) + metric_text(
            "cache_memory_usage_bytes"@,
            "Current estimated memory usage in bytes"@,
            "gauge"@,
            self.memory_usage as nat,
        )
    }

    /// Counters at zero and a gauge at `memory_usage`.
    pub fn starting_at(memory_usage: usize) -> (s: Stats)
        ensures
            s == (Stats { hits: 0, misses: 0, sets: 0, deletes: 0, memory_usage }),
    {
        Stats { hits: 0, misses: 0, sets: 0, deletes: 0, memory_usage }
    }

    /// The metrics as a text in the Prometheus exposition format.
    pub fn render(&self) -> (s: String)
        ensures
            s@ == self.rendered(),
    {
        let mut out = String::new();
        push_metric(&mut out, "cache_hits_total", "Total number of cache hits", "counter", self.hits);
        push_metric(
            &mut out,
            "cache_misses_total",
            "Total number of cache misses",
            "counter",
            self.misses,
        );
        push_metric(
            &mut out,
            "cache_sets_total",
            "Total number of SET operations",
            "counter",
            self.sets,
        );
        push_metric(
            &mut out,
            "cache_deletes_total",
            "Total number of DELETE operations",
            "counter",
            self.deletes,
        );
        push_metric(
            &mut out,
            "cache_memory_usage_bytes",
            "Current estimated memory usage in bytes",
            "gauge",
            self.memory_usage as u64,
        );
        assert(out@ =~= self.rendered());
        out
    }
}

impl Default for Stats {
    fn default() -> (s: Stats)
        ensures
            s == (Stats { hits: 0, misses: 0, sets: 0, deletes: 0, memory_usage: 0 }),
    {
        Stats::starting_at(0)
    }
}

/// Appends the three lines of one metric to `out`.
fn push_metric(out: &mut String, name: &str, help: &str, kind: &str, value: u64)
    ensures
        final(out)@ == old(out)@ + metric_text(name@, help@, kind@, value as nat),
{
    out.append("# HELP ");
    out.append(name);
    out.append(" ");
    out.append(help);
    out.append("\n");
    out.append("# TYPE ");
    out.append(name);
    out.append(" ");
    out.append(kind);
    out.append("\n");
    out.append(name);
    out.append(" ");
    push_decimal(out, value);
    out.append("\n");
    assert(out@ =~= old(out)@ + metric_text(name@, help@, kind@, value as nat));
}

} // verus!
