//! Retrieval of a weight-bounded, dependency-closed set of transactions for
//! block building.
//!
//! Candidates are considered in descending fee-per-gram order, earlier
//! insertion winning ties. A candidate is taken together with every in-pool
//! ancestor not yet selected; if that chain does not fit in the remaining
//! weight, the whole chain is skipped and the candidate never reconsidered,
//! though its ancestors may still be pulled in later by other descendants.

use vstd::prelude::*;
use crate::pool::{models_of, Entry, EntryModel};
use crate::tx::Transaction;

verus! {

/// The running state of a retrieval: which entries were already considered,
/// which are selected, the selection in output order, and its total weight.
pub ghost struct RetrieveState {
    /// Entries already considered as candidates or selected.
    pub done: Seq<bool>,
    /// Entries selected for the result.
    pub sel: Seq<bool>,
    /// Indices of the selected entries, in output order.
    pub order: Seq<int>,
    /// Total weight of the selected entries.
    pub total: int,
}

/// The starting state: nothing considered, nothing selected.
pub open spec fn init_state(n: int) -> RetrieveState {
    RetrieveState {
        done: Seq::new(n as nat, |i: int| false),
        sel: Seq::new(n as nat, |i: int| false),
        order: Seq::empty(),
        total: 0,
    }
}

/// The index of the best unconsidered candidate at or after `i`, carrying
/// the best so far (`-1` for none): highest fee-per-gram, earlier index
/// winning ties.
pub open spec fn best_from(s: Seq<EntryModel>, done: Seq<bool>, i: int, cur: int) -> int
    decreases s.len() - i,
{
    if i < 0 || i >= s.len() {
        cur
    } else {
        let better = !done[i] && (cur < 0 || s[i].fee_per_gram > s[cur].fee_per_gram);
        best_from(s, done, i + 1, if better { i } else { cur })
    }
}

/// A mask marking only position `c`.
pub open spec fn one_hot(n: int, c: int) -> Seq<bool> {
    Seq::new(n as nat, |i: int| i == c)
}

/// Marks, among positions `[0, i2)`, every unselected entry whose output
/// feeds entry `j` (that is, whose signature entry `j` records as a
/// dependency).
pub open spec fn mark_deps(
    s: Seq<EntryModel>,
    sel: Seq<bool>,
    nd: Seq<bool>,
    j: int,
    i2: int,
) -> Seq<bool>
    decreases i2,
{
    if i2 <= 0 {
        nd
    } else {
        let prev = mark_deps(s, sel, nd, j, i2 - 1);
        if s[j].dependencies.contains(s[i2 - 1].tx.sig()) && !sel[i2 - 1] {
            prev.update(i2 - 1, true)
        } else {
            prev
        }
    }
}

/// Processes positions `j-1` down to `0`: whenever a position is marked,
/// its unselected dependencies below it are marked too. Dependencies always
/// point below their entry, so one descending pass closes the mask.
pub open spec fn chain_scan(s: Seq<EntryModel>, sel: Seq<bool>, nd: Seq<bool>, j: int) -> Seq<
    bool,
>
    decreases j,
{
    if j <= 0 {
        nd
    } else {
        let stepped = if nd[j - 1] {
            mark_deps(s, sel, nd, j - 1, j - 1)
        } else {
            nd
        };
        chain_scan(s, sel, stepped, j - 1)
    }
}

/// Total weight of the entries marked among positions `[0, k)`.
pub open spec fn masked_weight(s: Seq<EntryModel>, nd: Seq<bool>, k: int) -> int
    decreases k,
{
    if k <= 0 {
        0
    } else {
        masked_weight(s, nd, k - 1) + if nd[k - 1] {
            s[k - 1].tx.weight as int
        } else {
            0
        }
    }
}

/// Pointwise disjunction of two masks of equal length.
pub open spec fn seq_or(a: Seq<bool>, b: Seq<bool>) -> Seq<bool> {
    Seq::new(a.len(), |i: int| a[i] || b[i])
}

/// The marked positions among `[0, k)`, in ascending order.
pub open spec fn marked_upto(nd: Seq<bool>, k: int) -> Seq<int>
    decreases k,
{
    if k <= 0 {
        Seq::empty()
    } else if nd[k - 1] {
        marked_upto(nd, k - 1).push(k - 1)
    } else {
        marked_upto(nd, k - 1)
    }
}

/// One consideration step: take the best unconsidered candidate; collect
/// its chain of unselected ancestors; select the chain if it fits in the
/// remaining weight, otherwise mark the candidate considered and move on.
pub open spec fn retrieve_step(s: Seq<EntryModel>, target: u64, st: RetrieveState)
    -> RetrieveState {
    let c = best_from(s, st.done, 0, -1);
    if !(0 <= c < s.len()) {
        st
    } else {
        let needed = chain_scan(s, st.sel, one_hot(s.len() as int, c), c + 1);
        let w = masked_weight(s, needed, s.len() as int);
        if st.total + w <= target {
            RetrieveState {
                done: seq_or(st.done, needed),
                sel: seq_or(st.sel, needed),
                order: st.order + marked_upto(needed, s.len() as int),
                total: st.total + w,
            }
        } else {
            RetrieveState {
                done: st.done.update(c, true),
                sel: st.sel,
                order: st.order,
                total: st.total,
            }
        }
    }
}

/// Runs consideration steps until no candidate remains or the fuel is
/// spent; one unit of fuel per pool entry always suffices.
pub open spec fn retrieve_rec(s: Seq<EntryModel>, target: u64, st: RetrieveState, fuel: int)
    -> RetrieveState
    decreases fuel,
{
    if fuel <= 0 {
        st
    } else {
        let c = best_from(s, st.done, 0, -1);
        if c < 0 {
            st
        } else {
            retrieve_rec(s, target, retrieve_step(s, target, st), fuel - 1)
        }
    }
}

/// The indices of the retrieved entries, in output order.
pub open spec fn spec_retrieve(s: Seq<EntryModel>, target: u64) -> Seq<int> {
    retrieve_rec(s, target, init_state(s.len() as int), s.len() as int).order
}

/// Whether every dependency recorded by an entry points strictly below it:
/// an invariant of the pool, since dependencies are recorded on entries
/// already present at insertion.
pub open spec fn deps_backward(s: Seq<EntryModel>) -> bool {
    forall|i: int, j: int|
        0 <= i <= j < s.len() ==> !#[trigger] s[i].dependencies.contains(#[trigger] s[j].tx.sig())
}

/// Total weight of the entries listed by `order[0..k)`.
pub open spec fn order_weight(s: Seq<EntryModel>, order: Seq<int>, k: int) -> int
    decreases k,
{
    if k <= 0 {
        0
    } else {
        order_weight(s, order, k - 1) + if 0 <= order[k - 1] < s.len() {
            s[order[k - 1]].tx.weight as int
        } else {
            0
        }
    }
}

/// The retrieval invariant: masks sized to the pool, selection recorded
/// consistently in mask and order, weights within the target, and every
/// selected entry's in-pool parents selected before it.
pub open spec fn state_inv(s: Seq<EntryModel>, target: u64, st: RetrieveState) -> bool {
    &&& st.done.len() == s.len()
    &&& st.sel.len() == s.len()
    &&& (forall|i: int| 0 <= i < s.len() && st.sel[i] ==> st.done[i])
    &&& (forall|a: int| 0 <= a < st.order.len() ==> 0 <= #[trigger] st.order[a] < s.len())
    &&& (forall|a: int, b: int| 0 <= a < b < st.order.len() ==> st.order[a] != st.order[b])
    &&& (forall|i: int| 0 <= i < s.len() ==> (st.sel[i] <==> st.order.contains(i)))
    &&& st.total == order_weight(s, st.order, st.order.len() as int)
    &&& st.total <= target
    &&& (forall|a: int, p: int|
        #![trigger st.order[a], s[p].tx.sig()]
        0 <= a < st.order.len() && 0 <= p < s.len() && s[st.order[a]].dependencies.contains(
            s[p].tx.sig(),
        ) ==> exists|b: int| 0 <= b < a && st.order[b] == p)
}

/// The candidate scan answers `-1` or an unconsidered index in range.
pub proof fn lemma_best_from_props(s: Seq<EntryModel>, done: Seq<bool>, i: int, cur: int)
    requires
        0 <= i,
        cur == -1 || (0 <= cur < s.len() && !done[cur]),
    ensures
        ({
            let r = best_from(s, done, i, cur);
            r == -1 || (0 <= r < s.len() && !done[r])
        }),
    decreases s.len() - i,
{
    if 0 <= i < s.len() {
        let better = !done[i] && (cur < 0 || s[i].fee_per_gram > s[cur].fee_per_gram);
        lemma_best_from_props(s, done, i + 1, if better { i } else { cur });
    }
}

/// What the dependency-marking pass does, position by position.
pub proof fn lemma_mark_deps_props(
    s: Seq<EntryModel>,
    sel: Seq<bool>,
    nd: Seq<bool>,
    j: int,
    i2: int,
)
    requires
        0 <= i2 <= nd.len(),
    ensures
        ({
            let out = mark_deps(s, sel, nd, j, i2);
            out.len() == nd.len() && forall|p: int|
                0 <= p < nd.len() ==> out[p] == (nd[p] || (p < i2 && s[j].dependencies.contains(
                    s[p].tx.sig(),
                ) && !sel[p]))
        }),
    decreases i2,
{
    if i2 > 0 {
        lemma_mark_deps_props(s, sel, nd, j, i2 - 1);
    }
}

/// What the descending closure pass guarantees: it only adds unselected
/// positions, leaves positions at or above `j` alone, and closes the mask
/// under unselected dependencies below `j`.
pub proof fn lemma_chain_scan_props(s: Seq<EntryModel>, sel: Seq<bool>, nd: Seq<bool>, j: int)
    requires
        nd.len() == s.len(),
        sel.len() == s.len(),
        0 <= j <= s.len(),
    ensures
        ({
            let out = chain_scan(s, sel, nd, j);
            &&& out.len() == nd.len()
            &&& (forall|i: int| 0 <= i < nd.len() && nd[i] ==> out[i])
            &&& (forall|i: int| j <= i < nd.len() ==> out[i] == nd[i])
            &&& (forall|i: int| 0 <= i < nd.len() && out[i] ==> (nd[i] || !sel[i]))
            &&& (forall|m: int, p: int|
                #![trigger out[m], s[p].tx.sig()]
                0 <= p < m < j && out[m] && s[m].dependencies.contains(s[p].tx.sig())
                    && !sel[p] ==> out[p])
        }),
    decreases j,
{
    if j > 0 {
        let stepped = if nd[j - 1] {
            mark_deps(s, sel, nd, j - 1, j - 1)
        } else {
            nd
        };
        if nd[j - 1] {
            lemma_mark_deps_props(s, sel, nd, j - 1, j - 1);
        }
        lemma_chain_scan_props(s, sel, stepped, j - 1);
        let out = chain_scan(s, sel, nd, j);
        assert forall|m: int, p: int|
            #![trigger out[m], s[p].tx.sig()]
            0 <= p < m < j && out[m] && s[m].dependencies.contains(s[p].tx.sig())
                && !sel[p] implies out[p] by {
            if m == j - 1 {
                assert(out[m] == stepped[m]);
                assert(stepped[m] == nd[j - 1]);
                assert(stepped[p]);
            }
        }
    }
}

/// The marked-position list is ascending, in range, and lists exactly the
/// marked positions.
pub proof fn lemma_marked_upto_props(nd: Seq<bool>, k: int)
    requires
        0 <= k <= nd.len(),
    ensures
        ({
            let mk = marked_upto(nd, k);
            &&& (forall|a: int| 0 <= a < mk.len() ==> 0 <= #[trigger] mk[a] < k && nd[mk[a]])
            &&& (forall|a: int, b: int| 0 <= a < b < mk.len() ==> mk[a] < mk[b])
            &&& (forall|p: int| 0 <= p < k && nd[p] ==> mk.contains(p))
        }),
    decreases k,
{
    if k > 0 {
        lemma_marked_upto_props(nd, k - 1);
        let mk = marked_upto(nd, k);
        let prev = marked_upto(nd, k - 1);
        assert forall|p: int| 0 <= p < k && nd[p] implies mk.contains(p) by {
            if p < k - 1 {
                assert(prev.contains(p));
                let a = choose|a: int| 0 <= a < prev.len() && prev[a] == p;
                if nd[k - 1] {
                    assert(mk[a] == p);
                } else {
                    assert(mk[a] == p);
                }
            } else {
                assert(nd[k - 1]);
                assert(mk.last() == p);
            }
        }
    }
}

/// The masked weight equals the weight of the marked-position list.
pub proof fn lemma_masked_weight_is_order_weight(s: Seq<EntryModel>, nd: Seq<bool>, k: int)
    requires
        0 <= k <= nd.len(),
        nd.len() == s.len(),
    ensures
        order_weight(s, marked_upto(nd, k), marked_upto(nd, k).len() as int) == masked_weight(
            s,
            nd,
            k,
        ),
    decreases k,
{
    if k > 0 {
        lemma_masked_weight_is_order_weight(s, nd, k - 1);
        lemma_marked_upto_props(nd, k);
        let prev = marked_upto(nd, k - 1);
        if nd[k - 1] {
            let mk = prev.push(k - 1);
            assert(order_weight(s, mk, mk.len() as int) == order_weight(
                s,
                mk,
                mk.len() - 1,
            ) + s[k - 1].tx.weight);
            lemma_order_weight_prefix_agree(s, mk, prev, mk.len() - 1);
        }
    }
}

/// The partial weight of an order list depends only on the listed prefix.
pub proof fn lemma_order_weight_prefix_agree(
    s: Seq<EntryModel>,
    o1: Seq<int>,
    o2: Seq<int>,
    k: int,
)
    requires
        0 <= k <= o1.len(),
        k <= o2.len(),
        forall|a: int| 0 <= a < k ==> o1[a] == o2[a],
    ensures
        order_weight(s, o1, k) == order_weight(s, o2, k),
    decreases k,
{
    if k > 0 {
        lemma_order_weight_prefix_agree(s, o1, o2, k - 1);
    }
}

/// The weight of a concatenation is the sum of the weights of its parts.
pub proof fn lemma_order_weight_concat(s: Seq<EntryModel>, o1: Seq<int>, o2: Seq<int>)
    ensures
        order_weight(s, o1 + o2, (o1 + o2).len() as int) == order_weight(s, o1, o1.len() as int)
            + order_weight(s, o2, o2.len() as int),
    decreases o2.len(),
{
    if o2.len() == 0 {
        assert(o1 + o2 =~= o1);
    } else {
        let o2p = o2.drop_last();
        lemma_order_weight_concat(s, o1, o2p);
        assert(o1 + o2 =~= (o1 + o2p).push(o2.last()));
        assert(order_weight(s, o1 + o2, (o1 + o2).len() as int) == order_weight(
            s,
            o1 + o2,
            (o1 + o2).len() - 1,
        ) + (if 0 <= o2.last() < s.len() {
            s[o2.last()].tx.weight as int
        } else {
            0
        }));
        lemma_order_weight_prefix_agree(s, o1 + o2, o1 + o2p, (o1 + o2p).len() as int);
        assert(order_weight(s, o2, o2.len() as int) == order_weight(s, o2, o2.len() - 1) + (
        if 0 <= o2.last() < s.len() {
            s[o2.last()].tx.weight as int
        } else {
            0
        }));
        lemma_order_weight_prefix_agree(s, o2, o2p, o2p.len() as int);
    }
}

/// One consideration step preserves the retrieval invariant.
pub proof fn lemma_step_inv(s: Seq<EntryModel>, target: u64, st: RetrieveState)
    requires
        state_inv(s, target, st),
        deps_backward(s),
    ensures
        state_inv(s, target, retrieve_step(s, target, st)),
{
    let c = best_from(s, st.done, 0, -1);
    lemma_best_from_props(s, st.done, 0, -1);
    if 0 <= c < s.len() {
        let n = s.len() as int;
        let nd0 = one_hot(n, c);
        let needed = chain_scan(s, st.sel, nd0, c + 1);
        lemma_chain_scan_props(s, st.sel, nd0, c + 1);
        let w = masked_weight(s, needed, n);
        assert(forall|i: int| 0 <= i < n && needed[i] ==> !st.sel[i]) by {
            assert(!st.sel[c]);
        }
        if st.total + w <= target {
            let mk = marked_upto(needed, n);
            lemma_marked_upto_props(needed, n);
            lemma_masked_weight_is_order_weight(s, needed, n);
            let st2 = retrieve_step(s, target, st);
            assert(st2.order == st.order + mk);
            lemma_order_weight_concat(s, st.order, mk);
            lemma_order_weight_prefix_agree(s, mk, mk, mk.len() as int);

            // selection mask matches the order list
            assert forall|i: int| 0 <= i < n implies (st2.sel[i] <==> st2.order.contains(i)) by {
                if st2.sel[i] {
                    if st.sel[i] {
                        let a = choose|a: int| 0 <= a < st.order.len() && st.order[a] == i;
                        assert(st2.order[a] == i);
                    } else {
                        assert(needed[i]);
                        assert(mk.contains(i));
                        let a = choose|a: int| 0 <= a < mk.len() && mk[a] == i;
                        assert(st2.order[st.order.len() + a] == i);
                    }
                }
                if st2.order.contains(i) {
                    let a = choose|a: int| 0 <= a < st2.order.len() && st2.order[a] == i;
                    if a < st.order.len() {
                        assert(st.order[a] == i);
                        assert(st.order.contains(i));
                    } else {
                        assert(mk[a - st.order.len()] == i);
                        assert(needed[i]);
                    }
                }
            }

            // distinctness
            assert forall|a: int, b: int| 0 <= a < b < st2.order.len() implies st2.order[a]
                != st2.order[b] by {
                if a < st.order.len() && b >= st.order.len() {
                    let p = st2.order[b];
                    assert(mk[b - st.order.len()] == p);
                    assert(needed[p]);
                    assert(!st.sel[p]);
                    if st2.order[a] == p {
                        assert(st.order.contains(p));
                    }
                }
            }

            // parents precede their children
            assert forall|a: int, p: int|
                #![trigger st2.order[a], s[p].tx.sig()]
                0 <= a < st2.order.len() && 0 <= p < n && s[st2.order[a]].dependencies.contains(
                    s[p].tx.sig(),
                ) implies exists|b: int| 0 <= b < a && st2.order[b] == p by {
                if a < st.order.len() {
                    assert(st.order[a] == st2.order[a]);
                    let b = choose|b: int| 0 <= b < a && st.order[b] == p;
                    assert(st2.order[b] == p);
                } else {
                    let a2 = a - st.order.len();
                    let m = mk[a2];
                    assert(m == st2.order[a]);
                    assert(needed[m]);
                    if st.sel[p] {
                        let b = choose|b: int| 0 <= b < st.order.len() && st.order[b] == p;
                        assert(st2.order[b] == p);
                        assert(b < a);
                    } else {
                        assert(p < m) by {
                            if m <= p {
                                assert(!s[m].dependencies.contains(s[p].tx.sig()));
                            }
                        }
                        assert(needed[p]);
                        assert(mk.contains(p));
                        let b2 = choose|b2: int| 0 <= b2 < mk.len() && mk[b2] == p;
                        assert(b2 < a2) by {
                            if b2 > a2 {
                                assert(mk[a2] < mk[b2]);
                            }
                            if b2 == a2 {
                                assert(p == m);
                            }
                        }
                        assert(st2.order[st.order.len() + b2] == p);
                    }
                }
            }
        }
    }
}

/// Reports whether a dependency list holds the signature.
fn deps_contain(deps: &Vec<u64>, sig: u64) -> (r: bool)
    ensures
        r == deps@.contains(sig),
{
    let mut i: usize = 0;
    while i < deps.len()
        invariant
            0 <= i <= deps@.len(),
            forall|j: int| 0 <= j < i ==> deps@[j] != sig,
        decreases deps@.len() - i,
    {
        if deps[i] == sig {
            return true;
        }
        i += 1;
    }
    false
}

/// Builds a mask of `n` false flags.
fn falses(n: usize) -> (r: Vec<bool>)
    ensures
        r@ =~= Seq::new(n as nat, |i: int| false),
{
    let mut v: Vec<bool> = Vec::new();
    let mut i: usize = 0;
    while i < n
        invariant
            0 <= i <= n,
            v@ =~= Seq::new(i as nat, |a: int| false),
        decreases n - i,
    {
        v.push(false);
        i += 1;
    }
    v
}

/// Finds the best unconsidered candidate: highest fee-per-gram, earlier
/// index winning ties.
#[verifier::loop_isolation(false)]
fn find_best(entries: &Vec<Entry>, done: &Vec<bool>) -> (r: Option<usize>)
    requires
        done@.len() == entries@.len(),
    ensures
        ({
            let b = best_from(models_of(entries@), done@, 0, -1);
            match r {
                Some(c) => c as int == b,
                None => b == -1,
            }
        }),
{
    let ghost s = models_of(entries@);
    let mut cur: usize = 0;
    let mut have: bool = false;
    let mut i: usize = 0;
    while i < entries.len()
        invariant
            0 <= i <= entries@.len(),
            have ==> 0 <= cur < entries@.len(),
            best_from(s, done@, 0, -1) == best_from(
                s,
                done@,
                i as int,
                if have {
                    cur as int
                } else {
                    -1
                },
            ),
        decreases entries@.len() - i,
    {
        assert(s[i as int] == entries@[i as int]@);
        proof {
            if have {
                assert(s[cur as int] == entries@[cur as int]@);
            }
        }
        let better = !done[i] && (!have || entries[i].fee_per_gram > entries[cur].fee_per_gram);
        if better {
            cur = i;
            have = true;
        }
        i += 1;
    }
    if have {
        Some(cur)
    } else {
        None
    }
}

/// Collects the candidate's chain: the candidate itself and, by one
/// descending pass, every unselected in-pool ancestor reached through
/// recorded dependencies.
#[verifier::loop_isolation(false)]
fn compute_chain(entries: &Vec<Entry>, sel: &Vec<bool>, c: usize) -> (nd: Vec<bool>)
    requires
        sel@.len() == entries@.len(),
        (c as int) < entries@.len(),
    ensures
        nd@ == chain_scan(
            models_of(entries@),
            sel@,
            one_hot(entries@.len() as int, c as int),
            c + 1,
        ),
{
    let ghost s = models_of(entries@);
    let n = entries.len();
    let mut nd = falses(n);
    nd[c] = true;
    proof {
        assert(nd@ =~= one_hot(n as int, c as int));
    }
    let ghost nd0 = nd@;
    let mut j: usize = c + 1;
    while j > 0
        invariant
            0 <= j <= c + 1,
            nd@.len() == n,
            chain_scan(s, sel@, nd0, c + 1) == chain_scan(s, sel@, nd@, j as int),
        decreases j,
    {
        let jj = j - 1;
        if nd[jj] {
            let ghost nd_entry = nd@;
            let mut i2: usize = 0;
            while i2 < jj
                invariant
                    0 <= i2 <= jj,
                    jj < entries@.len(),
                    nd@.len() == n,
                    nd@ == mark_deps(s, sel@, nd_entry, jj as int, i2 as int),
                decreases jj - i2,
            {
                proof {
                    lemma_mark_deps_props(s, sel@, nd_entry, jj as int, i2 as int);
                    lemma_mark_deps_props(s, sel@, nd_entry, jj as int, i2 + 1);
                    assert(s[jj as int] == entries@[jj as int]@);
                    assert(s[i2 as int] == entries@[i2 as int]@);
                }
                if deps_contain(&entries[jj].dependencies, entries[i2].tx.kernel.excess_sig)
                    && !sel[i2] {
                    nd[i2] = true;
                    assert(nd@ =~= mark_deps(s, sel@, nd_entry, jj as int, i2 + 1));
                } else {
                    assert(nd@ =~= mark_deps(s, sel@, nd_entry, jj as int, i2 + 1));
                }
                i2 += 1;
            }
        }
        j -= 1;
    }
    nd
}

/// Sums the weights of the marked entries.
#[verifier::loop_isolation(false)]
fn chain_weight(entries: &Vec<Entry>, nd: &Vec<bool>) -> (w: u128)
    requires
        nd@.len() == entries@.len(),
    ensures
        w == masked_weight(models_of(entries@), nd@, entries@.len() as int),
{
    let ghost s = models_of(entries@);
    let n = entries.len();
    proof {
        assert(s.len() == n);
        lemma_masked_weight_bound(s, nd@, s.len() as int);
        assert((s.len() as int) * (u64::MAX as int) <= (usize::MAX as int) * (u64::MAX as int))
            by (nonlinear_arith)
            requires
                0 <= s.len() <= usize::MAX,
        ;
    }
    let mut w: u128 = 0;
    let mut k: usize = 0;
    while k < entries.len()
        invariant
            0 <= k <= entries@.len(),
            w == masked_weight(s, nd@, k as int),
        decreases entries@.len() - k,
    {
        proof {
            assert(s[k as int] == entries@[k as int]@);
            lemma_masked_weight_bound(s, nd@, k + 1);
        }
        if nd[k] {
            w = w + entries[k].tx.weight as u128;
        }
        k += 1;
    }
    w
}

/// The masked weight is bounded by the pool length times the largest
/// single-transaction weight.
pub proof fn lemma_masked_weight_bound(s: Seq<EntryModel>, nd: Seq<bool>, k: int)
    requires
        k <= s.len(),
    ensures
        0 <= masked_weight(s, nd, k) <= s.len() * (u64::MAX as int),
    decreases k,
{
    if k <= 0 {
        assert(s.len() * (u64::MAX as int) >= 0) by (nonlinear_arith)
            requires
                s.len() >= 0,
        ;
    } else {
        lemma_masked_weight_bound(s, nd, k - 1);
        assert((s.len() - 1) * (u64::MAX as int) + (u64::MAX as int) == s.len() * (
        u64::MAX as int)) by (nonlinear_arith);
        assert(masked_weight(s, nd, k - 1) <= (s.len() - 1) * (u64::MAX as int)) by {
            lemma_masked_weight_tight(s, nd, k - 1);
        }
    }
}

/// A masked weight over `k` positions is at most `k` times the largest
/// single-transaction weight.
pub proof fn lemma_masked_weight_tight(s: Seq<EntryModel>, nd: Seq<bool>, k: int)
    requires
        k <= s.len(),
    ensures
        masked_weight(s, nd, k) <= (if k <= 0 {
            0
        } else {
            k
        }) * (u64::MAX as int),
    decreases k,
{
    if k > 0 {
        lemma_masked_weight_tight(s, nd, k - 1);
        if k - 1 <= 0 {
            assert(masked_weight(s, nd, k - 1) <= 0);
        }
        assert((k - 1) * (u64::MAX as int) + (u64::MAX as int) == k * (u64::MAX as int))
            by (nonlinear_arith);
    }
}

/// The pointwise disjunction of two equally long masks.
fn mask_or(a: &Vec<bool>, b: &Vec<bool>) -> (r: Vec<bool>)
    requires
        a@.len() == b@.len(),
    ensures
        r@ =~= seq_or(a@, b@),
{
    let mut r: Vec<bool> = Vec::new();
    let mut i: usize = 0;
    while i < a.len()
        invariant
            0 <= i <= a@.len(),
            a@.len() == b@.len(),
            r@.len() == i,
            forall|k: int| 0 <= k < i ==> r@[k] == (a@[k] || b@[k]),
        decreases a@.len() - i,
    {
        r.push(a[i] || b[i]);
        i += 1;
    }
    r
}

/// Retrieves a weight-bounded, dependency-closed list of transactions from
/// the pool, greedily by fee-per-gram priority.
#[verifier::loop_isolation(false)]
#[verifier::rlimit(60)]
pub fn retrieve_transactions(entries: &Vec<Entry>, target_weight: u64) -> (r: Vec<Transaction>)
    ensures
        r@.map_values(|t: Transaction| t@) =~= spec_retrieve(
            models_of(entries@),
            target_weight,
        ).map_values(|i: int| models_of(entries@)[i].tx),
{
    let ghost s = models_of(entries@);
    let n = entries.len();
    let mut done = falses(n);
    let mut sel = falses(n);
    let mut order: Vec<usize> = Vec::new();
    let mut total: u64 = 0;
    let ghost fuel0 = n as int;
    let mut round: usize = 0;
    proof {
        assert(done@ =~= init_state(n as int).done);
        assert(sel@ =~= init_state(n as int).sel);
        assert(order@.map_values(|u: usize| u as int) =~= init_state(n as int).order);
    }
    while round < n
        invariant
            0 <= round <= n,
            done@.len() == n,
            sel@.len() == n,
            forall|k: int| 0 <= k < order@.len() ==> (#[trigger] order@[k]) < n,
            retrieve_rec(s, target_weight, init_state(n as int), n as int) == retrieve_rec(
                s,
                target_weight,
                RetrieveState {
                    done: done@,
                    sel: sel@,
                    order: order@.map_values(|u: usize| u as int),
                    total: total as int,
                },
                n - round,
            ),
        decreases n - round,
    {
        let ghost st_cur = RetrieveState {
            done: done@,
            sel: sel@,
            order: order@.map_values(|u: usize| u as int),
            total: total as int,
        };
        match find_best(entries, &done) {
            None => {
                break ;
            },
            Some(c) => {
                let ghost c_spec = best_from(s, done@, 0, -1);
                proof {
                    lemma_best_from_props(s, done@, 0, -1);
                }
                let nd = compute_chain(entries, &sel, c);
                proof {
                    lemma_chain_scan_props(s, sel@, one_hot(n as int, c as int), c as int + 1);
                }
                let w = chain_weight(entries, &nd);
                proof {
                    assert(s.len() == n);
                    lemma_masked_weight_bound(s, nd@, s.len() as int);
                    assert((s.len() as int) * (u64::MAX as int) <= (usize::MAX as int) * (
                    u64::MAX as int)) by (nonlinear_arith)
                        requires
                            0 <= s.len() <= usize::MAX,
                    ;
                }
                if (total as u128) + w <= target_weight as u128 {
                    let ghost done_pre = done@;
                    let ghost sel_pre = sel@;
                    let ghost order_pre = order@;
                    done = mask_or(&done, &nd);
                    sel = mask_or(&sel, &nd);
                    let mut i2: usize = 0;
                    while i2 < n
                        invariant
                            0 <= i2 <= n,
                            nd@.len() == n,
                            forall|k: int|
                                0 <= k < order@.len() ==> (#[trigger] order@[k]) < n,
                            order@.map_values(|u: usize| u as int) =~= order_pre.map_values(
                                |u: usize| u as int,
                            ) + marked_upto(nd@, i2 as int),
                        decreases n - i2,
                    {
                        if nd[i2] {
                            let ghost o_prev = order@;
                            order.push(i2);
                            proof {
                                let f = |u: usize| u as int;
                                assert(order@ == o_prev.push(i2));
                                assert(order@.map_values(f) =~= o_prev.map_values(f).push(
                                    i2 as int,
                                ));
                                assert(marked_upto(nd@, i2 + 1) == marked_upto(nd@, i2 as int).push(
                                    i2 as int,
                                ));
                                assert(order_pre.map_values(f) + marked_upto(nd@, i2 as int).push(
                                    i2 as int,
                                ) =~= (order_pre.map_values(f) + marked_upto(nd@, i2 as int)).push(
                                    i2 as int,
                                ));
                                assert(order@.map_values(f) =~= order_pre.map_values(f)
                                    + marked_upto(nd@, i2 + 1));
                            }
                        } else {
                            assert(order@.map_values(|u: usize| u as int) =~= order_pre.map_values(
                                |u: usize| u as int,
                            ) + marked_upto(nd@, i2 + 1));
                        }
                        i2 += 1;
                    }
                    proof {
                        assert(w <= u64::MAX as u128);
                    }
                    total = total + w as u64;
                    proof {
                        let st2 = retrieve_step(s, target_weight, st_cur);
                        assert(done@ =~= st2.done);
                        assert(sel@ =~= st2.sel);
                        assert(order@.map_values(|u: usize| u as int) =~= st2.order);
                        assert(total as int == st2.total);
                        assert(retrieve_rec(s, target_weight, st_cur, n - round) == retrieve_rec(
                            s,
                            target_weight,
                            st2,
                            n - round - 1,
                        ));
                    }
                } else {
                    done[c] = true;
                    proof {
                        let st2 = retrieve_step(s, target_weight, st_cur);
                        assert(done@ =~= st2.done);
                        assert(sel@ =~= st2.sel);
                        assert(order@.map_values(|u: usize| u as int) =~= st2.order);
                        assert(total as int == st2.total);
                        assert(retrieve_rec(s, target_weight, st_cur, n - round) == retrieve_rec(
                            s,
                            target_weight,
                            st2,
                            n - round - 1,
                        ));
                    }
                }
            },
        }
        round += 1;
    }
    let mut r: Vec<Transaction> = Vec::new();
    let ghost order_final = order@.map_values(|u: usize| u as int);
    let mut k: usize = 0;
    while k < order.len()
        invariant
            0 <= k <= order@.len(),
            order_final == order@.map_values(|u: usize| u as int),
            forall|a: int| 0 <= a < order@.len() ==> (#[trigger] order@[a]) < n,
            r@.map_values(|t: Transaction| t@) =~= order_final.take(k as int).map_values(
                |i: int| s[i].tx,
            ),
        decreases order@.len() - k,
    {
        let idx = order[k];
        let ghost r_pre = r@;
        let dup = entries[idx].tx.duplicate();
        r.push(dup);
        proof {
            let f = |t: Transaction| t@;
            let g = |i: int| s[i].tx;
            assert(s[idx as int] == entries@[idx as int]@);
            assert(r@ == r_pre.push(dup));
            assert(dup@ == s[idx as int].tx);
            assert(r_pre.len() == k as int) by {
                assert(r_pre.map_values(f).len() == r_pre.len());
                assert(order_final.take(k as int).map_values(g).len() == k as int);
            }
            assert forall|a: int| 0 <= a < k + 1 implies r@.map_values(f)[a] == order_final.take(
                k + 1,
            ).map_values(g)[a] by {
                if a < k {
                    assert(r_pre.map_values(f)[a] == order_final.take(k as int).map_values(g)[a]);
                    assert(r@[a] == r_pre[a]);
                    assert(order_final.take(k + 1)[a] == order_final.take(k as int)[a]);
                } else {
                    assert(r@[a] == dup);
                    assert(order_final.take(k + 1)[a] == order_final[k as int]);
                    assert(order_final[k as int] == order@[k as int] as int);
                }
            }
            assert(r@.map_values(f) =~= order_final.take(k + 1).map_values(g));
        }
        k += 1;
    }
    proof {
        assert(order_final.take(order_final.len() as int) =~= order_final);
    }
    r
}

/// Every state reached by the retrieval recursion satisfies the invariant.
pub proof fn lemma_rec_inv(s: Seq<EntryModel>, target: u64, st: RetrieveState, fuel: int)
    requires
        state_inv(s, target, st),
        deps_backward(s),
    ensures
        state_inv(s, target, retrieve_rec(s, target, st, fuel)),
    decreases fuel,
{
    if fuel > 0 {
        let c = best_from(s, st.done, 0, -1);
        if c >= 0 {
            lemma_step_inv(s, target, st);
            lemma_rec_inv(s, target, retrieve_step(s, target, st), fuel - 1);
        }
    }
}

/// Soundness of retrieval: the answered index list is in range and
/// duplicate-free, its total weight stays within the target, and every
/// listed entry's in-pool parents appear earlier in the list.
pub proof fn lemma_retrieve_sound(s: Seq<EntryModel>, target: u64)
    requires
        deps_backward(s),
    ensures
        ({
            let order = spec_retrieve(s, target);
            &&& (forall|a: int| 0 <= a < order.len() ==> 0 <= #[trigger] order[a] < s.len())
            &&& (forall|a: int, b: int| 0 <= a < b < order.len() ==> order[a] != order[b])
            &&& order_weight(s, order, order.len() as int) <= target
            &&& (forall|a: int, p: int|
                #![trigger order[a], s[p].tx.sig()]
                0 <= a < order.len() && 0 <= p < s.len() && s[order[a]].dependencies.contains(
                    s[p].tx.sig(),
                ) ==> exists|b: int| 0 <= b < a && order[b] == p)
        }),
{
    let n = s.len() as int;
    assert(state_inv(s, target, init_state(n)));
    lemma_rec_inv(s, target, init_state(n), n);
}

} // verus!
