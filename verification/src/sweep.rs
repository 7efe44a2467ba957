//! Pool maintenance: the validity sweep and cap eviction.
//!
//! The sweep removes, lowest index first, every unconfirmed entry that is no
//! longer valid against the chain view, repeating until all remaining
//! entries are valid; a removal can orphan dependants, which the repetition
//! then removes too. Eviction brings the pool back under its configured
//! weight cap by repeatedly discarding the lowest fee-per-gram entry that no
//! other entry depends on (ties fall on the most recently inserted).

use vstd::prelude::*;
use crate::chain::ChainState;
use crate::pool::{
    check_entry_ok, entry_ok, find_dependent, has_dependent, models_of, sum_weights,
    total_weight, Entry, EntryModel,
};

verus! {

/// The lowest index at or after `i` whose entry is invalid against the
/// chain; the pool length when all entries from `i` on are valid.
pub open spec fn first_bad_from(chain: ChainState, s: Seq<EntryModel>, i: int) -> int
    decreases s.len() - i,
{
    if i < 0 || i >= s.len() {
        s.len() as int
    } else if !entry_ok(chain, s, s[i]) {
        i
    } else {
        first_bad_from(chain, s, i + 1)
    }
}

/// The pool after the validity sweep: invalid entries are removed, lowest
/// index first, until every remaining entry is valid.
pub open spec fn spec_sweep(chain: ChainState, s: Seq<EntryModel>) -> Seq<EntryModel>
    decreases s.len(),
{
    let k = first_bad_from(chain, s, 0);
    if 0 <= k < s.len() {
        spec_sweep(chain, s.remove(k))
    } else {
        s
    }
}

/// `first_bad_from` stays within bounds, finds an invalid entry when it
/// answers one, and answers the length exactly when all entries from `i` on
/// are valid.
pub proof fn lemma_first_bad_from(chain: ChainState, s: Seq<EntryModel>, i: int)
    requires
        0 <= i <= s.len(),
    ensures
        i <= first_bad_from(chain, s, i) <= s.len(),
        first_bad_from(chain, s, i) < s.len() ==> !entry_ok(
            chain,
            s,
            s[first_bad_from(chain, s, i)],
        ),
        forall|j: int| i <= j < first_bad_from(chain, s, i) ==> entry_ok(chain, s, s[j]),
    decreases s.len() - i,
{
    if i < s.len() && entry_ok(chain, s, s[i]) {
        lemma_first_bad_from(chain, s, i + 1);
    }
}

/// After the sweep every remaining entry is valid against the chain.
pub proof fn lemma_sweep_all_ok(chain: ChainState, s: Seq<EntryModel>)
    ensures
        forall|i: int|
            0 <= i < spec_sweep(chain, s).len() ==> entry_ok(
                chain,
                spec_sweep(chain, s),
                #[trigger] spec_sweep(chain, s)[i],
            ),
    decreases s.len(),
{
    lemma_first_bad_from(chain, s, 0);
    let k = first_bad_from(chain, s, 0);
    if 0 <= k < s.len() {
        lemma_sweep_all_ok(chain, s.remove(k));
        assert(spec_sweep(chain, s) == spec_sweep(chain, s.remove(k)));
    } else {
        assert(spec_sweep(chain, s) == s);
        assert forall|i: int| 0 <= i < spec_sweep(chain, s).len() implies entry_ok(
            chain,
            spec_sweep(chain, s),
            #[trigger] spec_sweep(chain, s)[i],
        ) by {
            assert(entry_ok(chain, s, s[i]));
        }
    }
}

/// Whether entry `i` may be evicted: no other entry records its signature
/// as a dependency.
pub open spec fn evictable(s: Seq<EntryModel>, i: int) -> bool {
    !has_dependent(s, s[i].tx.sig())
}

/// Whether the pool has any evictable entry.
pub open spec fn exists_evictable(s: Seq<EntryModel>) -> bool {
    exists|i: int| 0 <= i < s.len() && evictable(s, i)
}

/// Scans for the eviction victim from index `i` on, carrying the best
/// candidate so far (`-1` for none): the entry with the lowest fee-per-gram,
/// ties falling on the highest index; with `restrict`, only entries without
/// dependants count.
pub open spec fn victim_scan(s: Seq<EntryModel>, i: int, cur: int, restrict: bool) -> int
    decreases s.len() - i,
{
    if i < 0 || i >= s.len() {
        cur
    } else {
        let allowed = !restrict || evictable(s, i);
        let better = allowed && (cur < 0 || s[i].fee_per_gram <= s[cur].fee_per_gram);
        victim_scan(s, i + 1, if better { i } else { cur }, restrict)
    }
}

/// The index of the eviction victim: the lowest-priority entry without
/// dependants, falling back to the lowest-priority entry outright when every
/// entry has a dependant.
pub open spec fn victim(s: Seq<EntryModel>) -> int {
    if exists_evictable(s) {
        victim_scan(s, 0, -1, true)
    } else {
        victim_scan(s, 0, -1, false)
    }
}

/// The victim scan stays within bounds and returns a real index whenever a
/// candidate exists at or after `i`, or one was already carried.
pub proof fn lemma_victim_scan_bounds(s: Seq<EntryModel>, i: int, cur: int, restrict: bool)
    requires
        0 <= i,
        -1 <= cur < s.len(),
    ensures
        -1 <= victim_scan(s, i, cur, restrict) < s.len(),
        cur >= 0 ==> victim_scan(s, i, cur, restrict) >= 0,
        restrict ==> ((exists|j: int| i <= j < s.len() && evictable(s, j)) ==> victim_scan(
            s,
            i,
            cur,
            restrict,
        ) >= 0),
        (!restrict && i < s.len()) ==> victim_scan(s, i, cur, restrict) >= 0,
    decreases s.len() - i,
{
    if 0 <= i < s.len() {
        let allowed = !restrict || evictable(s, i);
        let better = allowed && (cur < 0 || s[i].fee_per_gram <= s[cur].fee_per_gram);
        let next = if better { i } else { cur };
        lemma_victim_scan_bounds(s, i + 1, next, restrict);
        if restrict && (exists|j: int| i <= j < s.len() && evictable(s, j)) {
            let j = choose|j: int| i <= j < s.len() && evictable(s, j);
            if j == i {
                if !better {
                    assert(cur >= 0);
                }
            } else {
                assert(i + 1 <= j < s.len() && evictable(s, j));
            }
        }
        if !restrict {
            if better {
                assert(next >= 0);
            } else {
                assert(cur >= 0);
            }
        }
    }
}

/// The eviction victim of a non-empty pool is a real index.
pub proof fn lemma_victim_in_range(s: Seq<EntryModel>)
    requires
        s.len() > 0,
    ensures
        0 <= victim(s) < s.len(),
{
    if exists_evictable(s) {
        lemma_victim_scan_bounds(s, 0, -1, true);
        let j = choose|j: int| 0 <= j < s.len() && evictable(s, j);
        assert(exists|j2: int| 0 <= j2 < s.len() && evictable(s, j2));
    } else {
        lemma_victim_scan_bounds(s, 0, -1, false);
    }
}

/// The pool after inserting a new entry and evicting back to the weight
/// cap, paired with whether the new entry survived. Eviction removes the
/// victim and repeats while the pool is over cap; choosing the new entry
/// itself stops the eviction with the new entry removed.
pub open spec fn spec_evict_insert(s: Seq<EntryModel>, cap: u64, new_sig: u64) -> (
    Seq<EntryModel>,
    bool,
)
    decreases s.len(),
{
    if total_weight(s) <= cap {
        (s, true)
    } else if s.len() == 0 {
        (s, true)
    } else {
        let v = victim(s);
        if 0 <= v < s.len() {
            if s[v].tx.sig() == new_sig {
                (s.remove(v), false)
            } else {
                spec_evict_insert(s.remove(v), cap, new_sig)
            }
        } else {
            (s, true)
        }
    }
}

/// The pool after evicting back to the weight cap, with no protected entry.
pub open spec fn spec_evict_all(s: Seq<EntryModel>, cap: u64) -> Seq<EntryModel>
    decreases s.len(),
{
    if total_weight(s) <= cap {
        s
    } else if s.len() == 0 {
        s
    } else {
        let v = victim(s);
        if 0 <= v < s.len() {
            spec_evict_all(s.remove(v), cap)
        } else {
            s
        }
    }
}

/// Removing an entry from the pool commutes with taking entry models.
pub proof fn lemma_models_remove(entries: Seq<Entry>, i: int)
    requires
        0 <= i < entries.len(),
    ensures
        models_of(entries.remove(i)) =~= models_of(entries).remove(i),
{
}

/// Finds the lowest index whose entry is invalid against the chain.
pub fn find_first_bad(chain: &ChainState, entries: &Vec<Entry>) -> (r: Option<usize>)
    ensures
        match r {
            Some(i) => first_bad_from(*chain, models_of(entries@), 0) == i as int && i
                < entries@.len(),
            None => first_bad_from(*chain, models_of(entries@), 0) == entries@.len(),
        },
{
    let ghost s = models_of(entries@);
    proof {
        lemma_first_bad_from(*chain, s, 0);
    }
    let mut i: usize = 0;
    while i < entries.len()
        invariant
            0 <= i <= entries@.len(),
            s == models_of(entries@),
            forall|j: int| 0 <= j < i ==> entry_ok(*chain, s, s[j]),
            first_bad_from(*chain, s, 0) >= i,
        decreases entries@.len() - i,
    {
        proof {
            lemma_first_bad_from(*chain, s, i as int);
        }
        assert(s[i as int] == entries@[i as int]@);
        if !check_entry_ok(chain, entries, &entries[i]) {
            proof {
                lemma_first_bad_from(*chain, s, 0);
                assert(first_bad_from(*chain, s, 0) <= i as int) by {
                    if first_bad_from(*chain, s, 0) > i as int {
                        assert(entry_ok(*chain, s, s[i as int]));
                    }
                }
            }
            return Some(i);
        }
        proof {
            lemma_first_bad_from(*chain, s, 0);
            assert(first_bad_from(*chain, s, 0) != i as int);
        }
        i += 1;
    }
    proof {
        lemma_first_bad_from(*chain, s, 0);
    }
    None
}

/// Removes invalid entries, lowest index first, until every remaining entry
/// is valid against the chain.
#[verifier::loop_isolation(false)]
pub fn sweep_pool(chain: &ChainState, entries: &mut Vec<Entry>)
    ensures
        models_of(final(entries)@) == spec_sweep(*chain, models_of(old(entries)@)),
{
    let ghost s0 = models_of(old(entries)@);
    loop
        invariant
            spec_sweep(*chain, s0) == spec_sweep(*chain, models_of(entries@)),
        decreases entries@.len(),
    {
        let bad = find_first_bad(chain, entries);
        match bad {
            None => {
                proof {
                    let s = models_of(entries@);
                    assert(first_bad_from(*chain, s, 0) == s.len());
                    assert(spec_sweep(*chain, s) == s);
                }
                return ;
            },
            Some(i) => {
                let ghost prev = entries@;
                let ghost s = models_of(prev);
                entries.remove(i);
                proof {
                    assert(entries@ == prev.remove(i as int));
                    lemma_models_remove(prev, i as int);
                    assert(models_of(entries@) =~= s.remove(i as int));
                    assert(spec_sweep(*chain, s) == spec_sweep(*chain, s.remove(i as int)));
                }
            },
        }
    }
}

/// Reports whether the pool has an entry that no other entry depends on.
pub fn find_evictable(entries: &Vec<Entry>) -> (r: bool)
    ensures
        r == exists_evictable(models_of(entries@)),
{
    let ghost s = models_of(entries@);
    let mut i: usize = 0;
    while i < entries.len()
        invariant
            0 <= i <= entries@.len(),
            s == models_of(entries@),
            forall|a: int| 0 <= a < i ==> !evictable(s, a),
        decreases entries@.len() - i,
    {
        assert(s[i as int] == entries@[i as int]@);
        if !find_dependent(entries, entries[i].tx.kernel.excess_sig) {
            assert(evictable(s, i as int));
            return true;
        }
        i += 1;
    }
    assert(!exists_evictable(s)) by {
        if exists_evictable(s) {
            let a = choose|a: int| 0 <= a < s.len() && evictable(s, a);
            assert(!evictable(s, a));
        }
    }
    false
}

/// Finds the eviction victim of a non-empty pool.
pub fn find_victim(entries: &Vec<Entry>) -> (v: usize)
    requires
        entries@.len() > 0,
    ensures
        v as int == victim(models_of(entries@)),
        v < entries@.len(),
{
    let ghost s = models_of(entries@);
    proof {
        lemma_victim_in_range(s);
    }
    let restrict = find_evictable(entries);

    let mut cur: usize = 0;
    let mut have: bool = false;
    let mut k: usize = 0;
    while k < entries.len()
        invariant
            0 <= k <= entries@.len(),
            s == models_of(entries@),
            have ==> 0 <= cur < entries@.len(),
            restrict == exists_evictable(s),
            victim_scan(s, 0, -1, restrict) == victim_scan(
                s,
                k as int,
                if have {
                    cur as int
                } else {
                    -1
                },
                restrict,
            ),
        decreases entries@.len() - k,
    {
        assert(s[k as int] == entries@[k as int]@);
        let allowed = if restrict {
            !find_dependent(entries, entries[k].tx.kernel.excess_sig)
        } else {
            true
        };
        let better = allowed && (!have || entries[k].fee_per_gram <= entries[cur].fee_per_gram);
        proof {
            if have {
                assert(s[cur as int] == entries@[cur as int]@);
            }
            assert(allowed == (!restrict || evictable(s, k as int)));
        }
        if better {
            cur = k;
            have = true;
        }
        k += 1;
    }
    proof {
        lemma_victim_scan_bounds(s, 0, -1, restrict);
        assert(have) by {
            if !have {
                assert(victim(s) == -1) by {
                    if exists_evictable(s) {
                        let j = choose|j: int| 0 <= j < s.len() && evictable(s, j);
                        assert(exists|j2: int| 0 <= j2 < s.len() && evictable(s, j2));
                    }
                }
                lemma_victim_in_range(s);
            }
        }
        assert(victim(s) == cur as int) by {
            if exists_evictable(s) {
                let j = choose|j: int| 0 <= j < s.len() && evictable(s, j);
                assert(exists|j2: int| 0 <= j2 < s.len() && evictable(s, j2));
            }
        }
    }
    cur
}

/// Inserts nothing itself: evicts entries from an over-cap pool until it is
/// within the cap, protecting nothing; used after a reorg refills the pool.
#[verifier::loop_isolation(false)]
pub fn evict_to_cap(entries: &mut Vec<Entry>, cap: u64)
    ensures
        models_of(final(entries)@) == spec_evict_all(models_of(old(entries)@), cap),
{
    let ghost s0 = models_of(old(entries)@);
    loop
        invariant
            spec_evict_all(s0, cap) == spec_evict_all(models_of(entries@), cap),
        decreases entries@.len(),
    {
        let ghost s = models_of(entries@);
        let total = sum_weights(entries);
        if total <= cap as u128 {
            assert(spec_evict_all(s, cap) == s);
            return ;
        }
        assert(entries@.len() > 0) by {
            if s.len() == 0 {
                assert(total_weight(s) == 0);
            }
        }
        let v = find_victim(entries);
        let ghost prev = entries@;
        entries.remove(v);
        proof {
            lemma_victim_in_range(s);
            assert(entries@ == prev.remove(v as int));
            lemma_models_remove(prev, v as int);
            assert(models_of(entries@) =~= s.remove(v as int));
            assert(spec_evict_all(s, cap) == spec_evict_all(s.remove(v as int), cap));
        }
    }
}

/// Evicts from an over-cap pool whose last entry is the newly inserted
/// transaction; returns whether the new transaction survived. Choosing the
/// new transaction as victim removes it and stops the eviction.
#[verifier::loop_isolation(false)]
pub fn evict_for_insert(entries: &mut Vec<Entry>, cap: u64, new_sig: u64) -> (kept: bool)
    ensures
        ({
            let r = spec_evict_insert(models_of(old(entries)@), cap, new_sig);
            models_of(final(entries)@) == r.0 && kept == r.1
        }),
{
    let ghost s0 = models_of(old(entries)@);
    loop
        invariant
            spec_evict_insert(s0, cap, new_sig) == spec_evict_insert(
                models_of(entries@),
                cap,
                new_sig,
            ),
        decreases entries@.len(),
    {
        let ghost s = models_of(entries@);
        let total = sum_weights(entries);
        if total <= cap as u128 {
            assert(spec_evict_insert(s, cap, new_sig) == (s, true));
            return true;
        }
        assert(entries@.len() > 0) by {
            if s.len() == 0 {
                assert(total_weight(s) == 0);
            }
        }
        let v = find_victim(entries);
        let evicting_new = entries[v].tx.kernel.excess_sig == new_sig;
        let ghost prev = entries@;
        entries.remove(v);
        proof {
            lemma_victim_in_range(s);
            assert(s[v as int] == prev[v as int]@);
            assert(entries@ == prev.remove(v as int));
            lemma_models_remove(prev, v as int);
            assert(models_of(entries@) =~= s.remove(v as int));
        }
        if evicting_new {
            assert(spec_evict_insert(s, cap, new_sig) == (s.remove(v as int), false));
            return false;
        }
        assert(spec_evict_insert(s, cap, new_sig) == spec_evict_insert(
            s.remove(v as int),
            cap,
            new_sig,
        ));
    }
}

} // verus!
