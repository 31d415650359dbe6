//! Cross-query filtering: the patterns of one rule must agree on the values
//! of the variables they share.

use vstd::prelude::*;
use std::collections::HashSet;

use crate::types::{Binding, ResultsCtx};

verus! {

broadcast use vstd::std_specs::hash::group_hash_axioms;

/// Two sets of bindings are chainable when every variable bound in both is
/// bound to the same text in both.
pub open spec fn bindings_chainable(a: Seq<Binding>, b: Seq<Binding>) -> bool {
    forall|i: int, j: int|
        0 <= i < a.len() && 0 <= j < b.len() && #[trigger] a[i].variable@ == #[trigger] b[j].variable@
            ==> a[i].value@ == b[j].value@
}

/// `a` chains with `results` when, for every query that has a result in
/// `results` other than `a`'s own query, some result of that query is
/// chainable with `a`.
pub open spec fn chains_with_every_query(a: ResultsCtx, results: Seq<ResultsCtx>) -> bool {
    forall|j: int|
        0 <= j < results.len() && (#[trigger] results[j]).query_index != a.query_index ==> exists|
            k: int,
        |
            0 <= k < results.len() && (#[trigger] results[k]).query_index == results[j].query_index
                && bindings_chainable(a.result.bindings@, results[k].result.bindings@)
}

/// Whether two sets of bindings agree on every variable they share.
pub fn chainable(a: &Vec<Binding>, b: &Vec<Binding>) -> (r: bool)
    ensures
        r == bindings_chainable(a@, b@),
{
    let mut i: usize = 0;
    while i < a.len()
        invariant
            i <= a.len(),
            forall|x: int, y: int|
                0 <= x < i && 0 <= y < b.len() && #[trigger] a@[x].variable@
                    == #[trigger] b@[y].variable@ ==> a@[x].value@ == b@[y].value@,
        decreases a.len() - i,
    {
        let mut j: usize = 0;
        while j < b.len()
            invariant
                i < a.len(),
                j <= b.len(),
                forall|x: int, y: int|
                    0 <= x < i && 0 <= y < b.len() && #[trigger] a@[x].variable@
                        == #[trigger] b@[y].variable@ ==> a@[x].value@ == b@[y].value@,
                forall|y: int|
                    0 <= y < j && a@[i as int].variable@ == #[trigger] b@[y].variable@
                        ==> a@[i as int].value@ == b@[y].value@,
            decreases b.len() - j,
        {
            if a[i].variable == b[j].variable && !(a[i].value == b[j].value) {
                return false;
            }
            j = j + 1;
        }
        i = i + 1;
    }
    true
}

/// Whether `results[idx]` chains with a result of every other query.
fn chains_at(results: &Vec<ResultsCtx>, idx: usize) -> (r: bool)
    requires
        idx < results.len(),
    ensures
        r == chains_with_every_query(results@[idx as int], results@),
{
    let a = &results[idx];
    // The queries that have a result chainable with `a`.
    let mut linked: HashSet<usize> = HashSet::new();
    let mut k: usize = 0;
    while k < results.len()
        invariant
            k <= results.len(),
            a == results@[idx as int],
            forall|q: usize|
                #[trigger] linked@.contains(q) <==> exists|m: int|
                    0 <= m < k && (#[trigger] results@[m]).query_index == q && bindings_chainable(
                        a.result.bindings@,
                        results@[m].result.bindings@,
                    ),
        decreases results.len() - k,
    {
        if chainable(&a.result.bindings, &results[k].result.bindings) {
            linked.insert(results[k].query_index);
        }
        k = k + 1;
    }
    let mut j: usize = 0;
    while j < results.len()
        invariant
            j <= results.len(),
            a == results@[idx as int],
            forall|q: usize|
                #[trigger] linked@.contains(q) <==> exists|m: int|
                    0 <= m < results.len() && (#[trigger] results@[m]).query_index == q
                        && bindings_chainable(a.result.bindings@, results@[m].result.bindings@),
            forall|y: int|
                0 <= y < j && (#[trigger] results@[y]).query_index != a.query_index ==> exists|
                    m: int,
                |
                    0 <= m < results.len() && (#[trigger] results@[m]).query_index
                        == results@[y].query_index && bindings_chainable(
                        a.result.bindings@,
                        results@[m].result.bindings@,
                    ),
        decreases results.len() - j,
    {
        let q: usize = results[j].query_index;
        if q != a.query_index && !linked.contains(&q) {
            assert(!linked@.contains(q));
            return false;
        }
        j = j + 1;
    }
    true
}

/// Keep only the results that chain with at least one result of every other
/// query: for each query that produced results, besides the result's own,
/// some result of it must agree with this result on all shared variables.
/// Results keep their order; with a single query nothing is removed.
pub fn filter_chainable_results(results: Vec<ResultsCtx>) -> (filtered: Vec<ResultsCtx>)
    ensures
        filtered@ == results@.filter(|a: ResultsCtx| chains_with_every_query(a, results@)),
{
    let ghost all = results@;
    let mut keep: Vec<bool> = Vec::new();
    let mut i: usize = 0;
    while i < results.len()
        invariant
            i <= results.len(),
            keep@.len() == i,
            forall|x: int| 0 <= x < i ==> #[trigger] keep@[x] == chains_with_every_query(results@[x], results@),
        decreases results.len() - i,
    {
        keep.push(chains_at(&results, i));
        i = i + 1;
    }
    let ghost pred = |a: ResultsCtx| chains_with_every_query(a, all);
    let mut filtered: Vec<ResultsCtx> = Vec::new();
    let n: usize = keep.len();
    let mut idx: usize = 0;
    for r in it: results.into_iter()
        invariant
            idx == it.index(),
            idx <= all.len(),
            n == all.len(),
            it.seq() == all,
            keep@.len() == all.len(),
            forall|x: int| 0 <= x < all.len() ==> #[trigger] keep@[x] == pred(all[x]),
            filtered@ == all.take(idx as int).filter(pred),
    {
        reveal_with_fuel(Seq::<_>::filter, 1);
        assert(all.take(idx as int + 1).drop_last() =~= all.take(idx as int));
        if keep[idx] {
            filtered.push(r);
        }
        idx = idx + 1;
    }
    assert(all.take(all.len() as int) =~= all);
    filtered
}

} // verus!
