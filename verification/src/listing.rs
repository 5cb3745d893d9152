//! Picking keys out of a scan of the store: by pattern, by parent, and
//! level by level below a key.

use vstd::prelude::*;
use crate::cache::matches_pattern;
use crate::cache::pattern_matches;
use crate::entry::EntryModel;
use crate::entry::opt_text;
use crate::model::CacheModel;
use crate::model::climbs;
use crate::model::lemma_climb_passes;
use crate::model::pairs_view;
use crate::model::parent_of;
use crate::text::owned;
use crate::text::same_text;
use crate::value::texts_view;

verus! {

broadcast use vstd::seq::group_seq_axioms, vstd::map::group_map_axioms, vstd::set::group_set_axioms;

/// Whether one of `texts` is `wanted`.
fn contains_text(texts: &Vec<String>, wanted: &str) -> (b: bool)
    ensures
        b == exists|j: int| 0 <= j < texts@.len() && texts@[j]@ == wanted@,
{
    let mut j: usize = 0;
    while j < texts.len()
        invariant
            j <= texts.len(),
            forall|l: int| 0 <= l < j ==> texts@[l]@ != wanted@,
        decreases texts.len() - j,
    {
        if same_text(texts[j].as_str(), wanted) {
            return true;
        }
        j = j + 1;
    }
    false
}

/// Whether `found` lists every key of `entries` once, each with its parent.
pub open spec fn lists_all(
    found: Seq<(String, Option<String>)>,
    entries: Map<Seq<char>, EntryModel>,
) -> bool {
    &&& forall|a: int|
        0 <= a < found.len() ==> entries.dom().contains(#[trigger] found[a].0@) && opt_text(
            found[a].1,
        ) == entries[found[a].0@].parent
    &&& forall|a: int, b: int|
        0 <= a < b < found.len() ==> #[trigger] found[a].0@ != #[trigger] found[b].0@
    &&& forall|k: Seq<char>|
        entries.dom().contains(k) ==> exists|a: int|
            0 <= a < found.len() && #[trigger] found[a].0@ == k
}

/// Whether `frontier` lists exactly the keys from which `steps` links lead to `top`.
pub open spec fn is_level(
    frontier: Seq<String>,
    entries: Map<Seq<char>, EntryModel>,
    steps: nat,
    top: Seq<char>,
) -> bool {
    &&& forall|j: int|
        0 <= j < frontier.len() ==> climbs(entries, #[trigger] frontier[j]@, steps, top)
    &&& forall|q: Seq<char>| #[trigger]
        climbs(entries, q, steps, top) ==> exists|j: int|
            0 <= j < frontier.len() && frontier[j]@ == q
    &&& forall|j: int, l: int|
        0 <= j < l < frontier.len() ==> #[trigger] frontier[j]@ != #[trigger] frontier[l]@
}

/// The keys of `found` whose parent is in `frontier`, which is the level
/// below `level`; each is added to `out` with `level`.
fn collect_level(
    found: &Vec<(String, Option<String>)>,
    frontier: &Vec<String>,
    level: u64,
    out: &mut Vec<(String, u64)>,
    Ghost(entries): Ghost<Map<Seq<char>, EntryModel>>,
    Ghost(top): Ghost<Seq<char>>,
) -> (next: Vec<String>)
    requires
        level >= 1,
        lists_all(found@, entries),
        is_level(frontier@, entries, (level - 1) as nat, top),
    ensures
        is_level(next@, entries, level as nat, top),
        final(out)@.len() == old(out)@.len() + next@.len(),
        forall|i: int| 0 <= i < old(out)@.len() ==> final(out)@[i] == old(out)@[i],
        forall|j: int|
            0 <= j < next@.len() ==> (#[trigger] final(out)@[old(out)@.len() + j]).0@ == next@[j]@
                && final(out)@[old(out)@.len() + j].1 == level,
{
    let mut next: Vec<String> = Vec::new();
    let mut a: usize = 0;
    while a < found.len()
        invariant
            a <= found.len(),
            level >= 1,
            lists_all(found@, entries),
            is_level(frontier@, entries, (level - 1) as nat, top),
            out@.len() == old(out)@.len() + next@.len(),
            forall|i: int| 0 <= i < old(out)@.len() ==> out@[i] == old(out)@[i],
            forall|j: int|
                0 <= j < next@.len() ==> (#[trigger] out@[old(out)@.len() + j]).0@ == next@[j]@
                    && out@[old(out)@.len() + j].1 == level,
            forall|j: int|
                0 <= j < next@.len() ==> climbs(entries, #[trigger] next@[j]@, level as nat, top)
                    && exists|b: int| 0 <= b < a && found@[b].0@ == next@[j]@,
            forall|b: int|
                0 <= b < a && climbs(entries, #[trigger] found@[b].0@, level as nat, top)
                    ==> exists|j: int| 0 <= j < next@.len() && next@[j]@ == found@[b].0@,
            forall|j: int, l: int|
                0 <= j < l < next@.len() ==> #[trigger] next@[j]@ != #[trigger] next@[l]@,
        decreases found.len() - a,
    {
        let reached = match &found[a].1 {
            Some(p) => contains_text(frontier, p.as_str()),
            None => false,
        };
        proof {
            let key = found@[a as int].0@;
            assert(entries.dom().contains(key));
            assert(parent_of(entries, key) == opt_text(found@[a as int].1));
            let below = (level - 1) as nat;
            assert(climbs(entries, key, level as nat, top) == match parent_of(entries, key) {
                Some(p) => climbs(entries, p, below, top),
                None => false,
            });
            match found@[a as int].1 {
                Some(ps) => {
                    let p = ps@;
                    if reached {
                        let j = choose|j: int| 0 <= j < frontier@.len() && frontier@[j]@ == p;
                        assert(climbs(entries, frontier@[j]@, below, top));
                    }
                    if climbs(entries, p, below, top) {
                        let j = choose|j: int| 0 <= j < frontier@.len() && frontier@[j]@ == p;
                        assert(frontier@[j]@ == p);
                    }
                },
                None => {},
            }
            assert(reached == climbs(entries, key, level as nat, top));
        }
        if reached {
            let ghost before = next@;
            let ghost out_before = out@;
            next.push(found[a].0.clone());
            out.push((found[a].0.clone(), level));
            proof {
                assert(forall|j: int| 0 <= j < before.len() ==> next@[j] == before[j]);
                assert(forall|i: int| 0 <= i < out_before.len() ==> out@[i] == out_before[i]);
                assert(next@[before.len() as int]@ == found@[a as int].0@);
                assert forall|b: int|
                    0 <= b < a + 1 && climbs(
                        entries,
                        #[trigger] found@[b].0@,
                        level as nat,
                        top,
                    ) implies exists|j: int|
                    0 <= j < next@.len() && next@[j]@ == found@[b].0@ by {
                    if b < a {
                        let j = choose|j: int| 0 <= j < before.len() && before[j]@ == found@[b].0@;
                        assert(next@[j]@ == found@[b].0@);
                    } else {
                        assert(next@[before.len() as int]@ == found@[b].0@);
                    }
                }
            }
        }
        a = a + 1;
    }
    proof {
        assert forall|q: Seq<char>| #[trigger] climbs(entries, q, level as nat, top) implies exists|
            j: int,
        |
            0 <= j < next@.len() && next@[j]@ == q by {
            assert(entries.dom().contains(q));
            let b = choose|b: int| 0 <= b < found@.len() && found@[b].0@ == q;
            assert(climbs(entries, found@[b].0@, level as nat, top));
        }
    }
    next
}

/// Up to `limit` of the keys of `found` that `pattern` matches, in their order.
pub(crate) fn pick_matching(
    found: &Vec<(String, Option<String>)>,
    pattern: &str,
    limit: usize,
    Ghost(m): Ghost<CacheModel>,
) -> (r: Vec<String>)
    requires
        lists_all(found@, m.entries),
        m.entries.dom().finite(),
    ensures
        m.lists_matching(pattern@, limit, texts_view(r@)),
{
    let ghost wanted = m.matching(pattern@);
    let mut kept: Vec<String> = Vec::new();
    let mut i: usize = 0;
    while i < found.len() && kept.len() < limit
        invariant
            i <= found.len(),
            kept@.len() <= limit,
            wanted == m.matching(pattern@),
            forall|a: int|
                0 <= a < found@.len() ==> m.entries.dom().contains(
                    #[trigger] found@[a].0@,
                ),
            forall|a: int, b: int|
                0 <= a < b < found@.len() ==> #[trigger] found@[a].0@ != #[trigger] found@[b].0@,
            forall|j: int|
                0 <= j < kept@.len() ==> wanted.contains(#[trigger] kept@[j]@) && exists|a: int|
                    0 <= a < i && found@[a].0@ == kept@[j]@,
            forall|a: int|
                0 <= a < i && pattern_matches(#[trigger] found@[a].0@, pattern@) ==> exists|
                    j: int,
                |
                    0 <= j < kept@.len() && kept@[j]@ == found@[a].0@,
            forall|j: int, l: int|
                0 <= j < l < kept@.len() ==> #[trigger] kept@[j]@ != #[trigger] kept@[l]@,
        decreases found.len() - i,
    {
        if matches_pattern(found[i].0.as_str(), pattern) {
            let ghost before = kept@;
            kept.push(found[i].0.clone());
            proof {
                assert(forall|j: int| 0 <= j < before.len() ==> kept@[j] == before[j]);
                assert(kept@[before.len() as int]@ == found@[i as int].0@);
                assert forall|a: int|
                    0 <= a < i + 1 && pattern_matches(
                        #[trigger] found@[a].0@,
                        pattern@,
                    ) implies exists|j: int|
                    0 <= j < kept@.len() && kept@[j]@ == found@[a].0@ by {
                    if a < i {
                        let j = choose|j: int|
                            0 <= j < before.len() && before[j]@ == found@[a].0@;
                        assert(kept@[j]@ == found@[a].0@);
                    } else {
                        assert(kept@[before.len() as int]@ == found@[a].0@);
                    }
                }
            }
        }
        i = i + 1;
    }
    proof {
        let texts = texts_view(kept@);
        assert(texts.no_duplicates());
        assert forall|k: Seq<char>| texts.to_set().contains(k) implies wanted.contains(k) by {
            let j = choose|j: int| 0 <= j < texts.len() && texts[j] == k;
            assert(wanted.contains(kept@[j]@));
        }
        m.entries.dom().lemma_len_filter(|k: Seq<char>| pattern_matches(k, pattern@));
        texts.unique_seq_to_set();
        vstd::set_lib::lemma_len_subset(texts.to_set(), wanted);
        if i == found.len() {
            assert forall|k: Seq<char>| wanted.contains(k) implies texts.to_set().contains(
                k,
            ) by {
                let a = choose|a: int| 0 <= a < found@.len() && found@[a].0@ == k;
                let j = choose|j: int| 0 <= j < kept@.len() && kept@[j]@ == found@[a].0@;
                assert(texts[j] == k);
            }
            assert(texts.to_set() =~= wanted);
        } else {
            if limit >= wanted.len() {
                vstd::set_lib::lemma_subset_equality(texts.to_set(), wanted);
            }
        }
    }
    kept
}

/// The keys of `found` that name `parent` as their parent, in their order.
pub(crate) fn pick_children(
    found: &Vec<(String, Option<String>)>,
    parent: &str,
    Ghost(m): Ghost<CacheModel>,
) -> (r: Vec<String>)
    requires
        lists_all(found@, m.entries),
    ensures
        m.lists_children(parent@, texts_view(r@)),
{
    let ghost wanted = m.children_of(parent@);
    let mut kept: Vec<String> = Vec::new();
    let mut i: usize = 0;
    while i < found.len()
        invariant
            i <= found.len(),
            wanted == m.children_of(parent@),
            forall|a: int|
                0 <= a < found@.len() ==> m.entries.dom().contains(
                    #[trigger] found@[a].0@,
                ) && opt_text(found@[a].1) == m.entries[found@[a].0@].parent,
            forall|a: int, b: int|
                0 <= a < b < found@.len() ==> #[trigger] found@[a].0@ != #[trigger] found@[b].0@,
            forall|j: int|
                0 <= j < kept@.len() ==> wanted.contains(#[trigger] kept@[j]@) && exists|a: int|
                    0 <= a < i && found@[a].0@ == kept@[j]@,
            forall|a: int|
                0 <= a < i && wanted.contains(#[trigger] found@[a].0@) ==> exists|j: int|
                    0 <= j < kept@.len() && kept@[j]@ == found@[a].0@,
            forall|j: int, l: int|
                0 <= j < l < kept@.len() ==> #[trigger] kept@[j]@ != #[trigger] kept@[l]@,
        decreases found.len() - i,
    {
        let is_child = match &found[i].1 {
            Some(p) => same_text(p.as_str(), parent),
            None => false,
        };
        assert(is_child == wanted.contains(found@[i as int].0@));
        if is_child {
            let ghost before = kept@;
            kept.push(found[i].0.clone());
            proof {
                assert(forall|j: int| 0 <= j < before.len() ==> kept@[j] == before[j]);
                assert(kept@[before.len() as int]@ == found@[i as int].0@);
                assert forall|a: int|
                    0 <= a < i + 1 && wanted.contains(
                        #[trigger] found@[a].0@,
                    ) implies exists|j: int|
                    0 <= j < kept@.len() && kept@[j]@ == found@[a].0@ by {
                    if a < i {
                        let j = choose|j: int|
                            0 <= j < before.len() && before[j]@ == found@[a].0@;
                        assert(kept@[j]@ == found@[a].0@);
                    } else {
                        assert(kept@[before.len() as int]@ == found@[a].0@);
                    }
                }
            }
        }
        i = i + 1;
    }
    proof {
        let texts = texts_view(kept@);
        assert(texts.no_duplicates());
        assert forall|k: Seq<char>| texts.to_set().contains(k) implies wanted.contains(k) by {
            let j = choose|j: int| 0 <= j < texts.len() && texts[j] == k;
            assert(wanted.contains(kept@[j]@));
        }
        assert forall|k: Seq<char>| wanted.contains(k) implies texts.to_set().contains(k) by {
            let a = choose|a: int| 0 <= a < found@.len() && found@[a].0@ == k;
            let j = choose|j: int| 0 <= j < kept@.len() && kept@[j]@ == found@[a].0@;
            assert(texts[j] == k);
        }
        assert(texts.to_set() =~= wanted);
    }
    kept
}

/// The keys of `found` below `parent_key`, level by level down to
/// `max_depth`, each with its depth; the keys of one level in their order.
pub(crate) fn descend(
    found: &Vec<(String, Option<String>)>,
    parent_key: &str,
    max_depth: usize,
    Ghost(m): Ghost<CacheModel>,
) -> (r: Vec<(String, u64)>)
    requires
        lists_all(found@, m.entries),
    ensures
        m.lists_descendants(parent_key@, max_depth, pairs_view(r@)),
{
    let ghost entries = m.entries;
    let ghost top = parent_key@;
    let mut result: Vec<(String, u64)> = Vec::new();
    let mut frontier: Vec<String> = Vec::new();
    frontier.push(owned(parent_key));
    let mut depth: usize = 0;
    assert(is_level(frontier@, entries, 0, top)) by {
        assert(frontier@[0]@ == top);
    }
    while depth < max_depth && frontier.len() > 0
        invariant
            depth <= max_depth,
            lists_all(found@, entries),
            is_level(frontier@, entries, depth as nat, top),
            forall|i: int|
                0 <= i < result@.len() ==> 1 <= (#[trigger] result@[i]).1 <= depth && climbs(
                    entries,
                    result@[i].0@,
                    result@[i].1 as nat,
                    top,
                ),
            forall|k: Seq<char>, d: nat|
                1 <= d <= depth && #[trigger] climbs(entries, k, d, top) ==> exists|i: int|
                    0 <= i < result@.len() && result@[i].0@ == k && result@[i].1 == d,
            forall|i: int, j: int|
                0 <= i < j < result@.len() ==> (#[trigger] result@[i]).1 <= (
                #[trigger] result@[j]).1,
            forall|i: int, j: int|
                0 <= i < j < result@.len() ==> !((#[trigger] result@[i]).0@ == (
                #[trigger] result@[j]).0@ && result@[i].1 == result@[j].1),
        decreases max_depth - depth,
    {
        depth = depth + 1;
        let ghost before = result@;
        let next = collect_level(
            &found,
            &frontier,
            depth as u64,
            &mut result,
            Ghost(entries),
            Ghost(top),
        );
        proof {
            assert forall|k: Seq<char>, d: nat|
                1 <= d <= depth && #[trigger] climbs(entries, k, d, top) implies exists|i: int|
                0 <= i < result@.len() && result@[i].0@ == k && result@[i].1 == d by {
                if d < depth {
                    let i = choose|i: int|
                        0 <= i < before.len() && before[i].0@ == k && before[i].1 == d;
                    assert(result@[i] == before[i]);
                } else {
                    let j = choose|j: int| 0 <= j < next@.len() && next@[j]@ == k;
                    assert(result@[before.len() + j].0@ == k);
                }
            }
            assert forall|i: int| 0 <= i < result@.len() implies 1 <= (#[trigger] result@[i]).1
                <= depth && climbs(entries, result@[i].0@, result@[i].1 as nat, top) by {
                if i < before.len() {
                    assert(result@[i] == before[i]);
                } else {
                    let j = i - before.len();
                    assert(result@[before.len() + j].0@ == next@[j]@);
                }
            }
            assert forall|i: int, j: int| 0 <= i < j < result@.len() implies (
            #[trigger] result@[i]).1 <= (#[trigger] result@[j]).1 && !(result@[i].0@
                == result@[j].0@ && result@[i].1 == result@[j].1) by {
                if j < before.len() {
                    assert(result@[i] == before[i]);
                    assert(result@[j] == before[j]);
                } else {
                    let jj = j - before.len();
                    assert(result@[before.len() + jj].0@ == next@[jj]@);
                    if i < before.len() {
                        assert(result@[i] == before[i]);
                    } else {
                        let ii = i - before.len();
                        assert(result@[before.len() + ii].0@ == next@[ii]@);
                    }
                }
            }
        }
        frontier = next;
    }
    proof {
        assert forall|k: Seq<char>, d: nat|
            1 <= d <= max_depth && #[trigger] climbs(entries, k, d, top) implies exists|i: int|
            0 <= i < result@.len() && result@[i].0@ == k && result@[i].1 == d by {
            if d > depth {
                lemma_climb_passes(entries, k, d, depth as nat, top);
                let q = choose|q: Seq<char>| climbs(entries, q, depth as nat, top);
                assert(climbs(entries, q, depth as nat, top));
            }
        }
        let pairs = pairs_view(result@);
        assert forall|k: Seq<char>, d: nat|
            1 <= d <= max_depth && #[trigger] climbs(entries, k, d, top) implies exists|i: int|
            0 <= i < pairs.len() && pairs[i].0 == k && pairs[i].1 == d by {
            let i = choose|i: int|
                0 <= i < result@.len() && result@[i].0@ == k && result@[i].1 == d;
            assert(pairs[i] == (k, d as u64));
        }
        assert forall|i: int, j: int| 0 <= i < j < pairs.len() implies (#[trigger] pairs[i]).1
            <= (#[trigger] pairs[j]).1 && pairs[i] != pairs[j] by {
            assert(result@[i].1 <= result@[j].1);
        }
        assert forall|i: int| 0 <= i < pairs.len() implies 1 <= (#[trigger] pairs[i]).1
            <= max_depth && climbs(entries, pairs[i].0, pairs[i].1 as nat, top) by {
            assert(1 <= result@[i].1 <= max_depth);
        }
    }
    result
}

} // verus!
