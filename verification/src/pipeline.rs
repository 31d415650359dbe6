//! Per-file and per-query decisions of the search pipeline: which files are
//! worth parsing, and which matches of a query are reported.

use vstd::prelude::*;
use vstd::string::StringSliceAdditionalSpecFns;
use vstd::utf8::encode_utf8;
use std::collections::HashSet;

use crate::types::{Binding, Options, QueryMatch, ResultsCtx, WorkItem};

verus! {

broadcast use vstd::std_specs::hash::group_hash_axioms;

/// `needle` occurs in `haystack` starting at byte `k`.
pub open spec fn occurs_at(haystack: Seq<u8>, needle: Seq<u8>, k: int) -> bool {
    0 <= k && k + needle.len() <= haystack.len() && haystack.subrange(k, k + needle.len()) == needle
}

/// `needle` occurs somewhere in `haystack`.
pub open spec fn contains_bytes(haystack: Seq<u8>, needle: Seq<u8>) -> bool {
    exists|k: int| occurs_at(haystack, needle, k)
}

/// Whether `needle` occurs in `haystack` (compared as UTF-8 bytes).
pub fn contains_text(haystack: &str, needle: &str) -> (r: bool)
    ensures
        r == contains_bytes(haystack.spec_bytes(), needle.spec_bytes()),
{
    let h = haystack.as_bytes();
    let n = needle.as_bytes();
    let hl: usize = h.len();
    let nl: usize = n.len();
    if nl == 0 {
        assert(h@.subrange(0, 0) =~= n@);
        assert(occurs_at(h@, n@, 0));
        return true;
    }
    if nl > hl {
        return false;
    }
    let last: usize = hl - nl;
    let mut k: usize = 0;
    while k < last + 1
        invariant
            h@ == haystack.spec_bytes(),
            n@ == needle.spec_bytes(),
            hl == h@.len(),
            nl == n@.len(),
            nl > 0,
            last + nl == hl,
            k <= last + 1,
            forall|j: int| 0 <= j < k ==> !occurs_at(h@, n@, j),
        decreases last + 1 - k,
    {
        let mut m: usize = 0;
        let mut same = true;
        while m < nl && same
            invariant
                h@ == haystack.spec_bytes(),
                n@ == needle.spec_bytes(),
                hl == h@.len(),
                nl == n@.len(),
                k <= last,
                last + nl == hl,
                m <= nl,
                same ==> forall|t: int| 0 <= t < m ==> h@[k + t] == n@[t],
                !same ==> m >= 1 && h@[k + m - 1] != n@[m - 1],
            decreases nl - m + if same { 1int } else { 0int },
        {
            if h[k + m] != n[m] {
                same = false;
            }
            m = m + 1;
        }
        if same {
            assert(h@.subrange(k as int, k + n@.len()) =~= n@);
            assert(occurs_at(h@, n@, k as int));
            return true;
        }
        proof {
            assert(!occurs_at(h@, n@, k as int)) by {
                if occurs_at(h@, n@, k as int) {
                    assert(h@.subrange(k as int, k + n@.len())[m - 1] == h@[k + m - 1]);
                }
            }
        }
        k = k + 1;
    }
    false
}

/// A work item may match a source when the source contains every one of
/// its identifiers.
pub open spec fn item_may_match(source: Seq<u8>, item: WorkItem) -> bool {
    forall|i: int|
        0 <= i < item.identifiers@.len() ==> contains_bytes(
            source,
            encode_utf8(#[trigger] item.identifiers@[i]@),
        )
}

/// Whether a file is worth parsing: some work item has all of its
/// identifiers in the file's source.
pub fn potential_match(source: &str, work: &[WorkItem]) -> (r: bool)
    ensures
        r == exists|w: int| 0 <= w < work@.len() && item_may_match(source.spec_bytes(), #[trigger] work@[w]),
{
    let mut w: usize = 0;
    while w < work.len()
        invariant
            w <= work@.len(),
            forall|x: int| 0 <= x < w ==> !item_may_match(source.spec_bytes(), #[trigger] work@[x]),
        decreases work@.len() - w,
    {
        let item = &work[w];
        let mut i: usize = 0;
        let mut all = true;
        while i < item.identifiers.len() && all
            invariant
                *item == work@[w as int],
                i <= item.identifiers@.len(),
                all ==> forall|t: int|
                    0 <= t < i ==> contains_bytes(
                        source.spec_bytes(),
                        encode_utf8(#[trigger] item.identifiers@[t]@),
                    ),
                !all ==> i >= 1 && !contains_bytes(
                    source.spec_bytes(),
                    encode_utf8(item.identifiers@[i - 1]@),
                ),
            decreases item.identifiers@.len() - i + if all { 1int } else { 0int },
        {
            if !contains_text(source, item.identifiers[i].as_str()) {
                all = false;
            }
            i = i + 1;
        }
        if all {
            assert(item_may_match(source.spec_bytes(), work@[w as int]));
            return true;
        }
        w = w + 1;
    }
    false
}

/// The values bound in one match are pairwise different.
pub open spec fn values_distinct(bindings: Seq<Binding>) -> bool {
    forall|i: int, j: int|
        0 <= i < j < bindings.len() ==> (#[trigger] bindings[i]).value@ != (#[trigger] bindings[j]).value@
}

/// A match passes `--unique` when the option is off or its values differ.
pub open spec fn passes_unique(m: QueryMatch, options: Options) -> bool {
    !options.unique || values_distinct(m.bindings@)
}

/// The matches whose start offset no earlier match has.
pub open spec fn first_per_start(ms: Seq<QueryMatch>) -> Seq<QueryMatch>
    decreases ms.len(),
{
    if ms.len() == 0 {
        ms
    } else {
        let init = ms.drop_last();
        if exists|j: int| 0 <= j < init.len() && (#[trigger] init[j]).start_offset == ms.last().start_offset {
            first_per_start(init)
        } else {
            first_per_start(init).push(ms.last())
        }
    }
}

/// The matches of one query in one file that are reported: those that pass
/// `--unique`, and of those, with `--limit`, only the first at each start
/// offset.
pub open spec fn reported_matches(ms: Seq<QueryMatch>, options: Options) -> Seq<QueryMatch> {
    let u = ms.filter(|m: QueryMatch| passes_unique(m, options));
    if options.limit {
        first_per_start(u)
    } else {
        u
    }
}

/// Whether all values bound in a match differ.
fn distinct_values(bindings: &Vec<Binding>) -> (r: bool)
    ensures
        r == values_distinct(bindings@),
{
    let mut i: usize = 0;
    while i < bindings.len()
        invariant
            i <= bindings@.len(),
            forall|x: int, y: int|
                0 <= x < i && x < y < bindings@.len() ==> (#[trigger] bindings@[x]).value@
                    != (#[trigger] bindings@[y]).value@,
        decreases bindings@.len() - i,
    {
        let mut j: usize = i + 1;
        while j < bindings.len()
            invariant
                i < bindings@.len(),
                i + 1 <= j <= bindings@.len(),
                forall|x: int, y: int|
                    0 <= x < i && x < y < bindings@.len() ==> (#[trigger] bindings@[x]).value@
                        != (#[trigger] bindings@[y]).value@,
                forall|y: int| i < y < j ==> bindings@[i as int].value@ != (#[trigger] bindings@[y]).value@,
            decreases bindings@.len() - j,
        {
            if bindings[i].value == bindings[j].value {
                assert(!values_distinct(bindings@)) by {
                    assert(bindings@[i as int].value@ == bindings@[j as int].value@);
                }
                return false;
            }
            j = j + 1;
        }
        i = i + 1;
    }
    true
}

/// Apply `--unique` and `--limit` to the matches of one query in one file.
pub fn filter_matches(matches: Vec<QueryMatch>, options: Options) -> (kept: Vec<QueryMatch>)
    ensures
        kept@ == reported_matches(matches@, options),
{
    let ghost all = matches@;
    let ghost pu = |m: QueryMatch| passes_unique(m, options);
    let mut kept: Vec<QueryMatch> = Vec::new();
    let mut seen: HashSet<usize> = HashSet::new();
    let n: usize = matches.len();
    let mut idx: usize = 0;
    for m in it: matches.into_iter()
        invariant
            idx == it.index(),
            idx <= all.len(),
            n == all.len(),
            it.seq() == all,
            kept@ == (if options.limit {
                first_per_start(all.take(idx as int).filter(pu))
            } else {
                all.take(idx as int).filter(pu)
            }),
            pu == (|m: QueryMatch| passes_unique(m, options)),
            options.limit ==> forall|o: usize|
                #[trigger] seen@.contains(o) <==> exists|j: int|
                    0 <= j < all.take(idx as int).filter(pu).len() && (#[trigger] all.take(
                        idx as int,
                    ).filter(pu)[j]).start_offset == o,
    {
        let ghost u = all.take(idx as int).filter(pu);
        proof {
            reveal_with_fuel(Seq::<_>::filter, 1);
            assert(all.take(idx as int + 1).drop_last() =~= all.take(idx as int));
        }
        assert(m == all[idx as int]);
        if !options.unique || distinct_values(&m.bindings) {
            assert(pu(m));
            let ghost u2 = u.push(m);
            assert(all.take(idx as int + 1).filter(pu) == u2);
            assert(u2.drop_last() =~= u);
            if options.limit {
                let start: usize = m.start_offset;
                if seen.insert(start) {
                    kept.push(m);
                } else {
                    assert(exists|j: int| 0 <= j < u.len() && (#[trigger] u[j]).start_offset == start);
                }
            } else {
                kept.push(m);
            }
            proof {
                if options.limit {
                assert forall|o: usize|
                    #[trigger] seen@.contains(o) <==> exists|j: int|
                        0 <= j < u2.len() && (#[trigger] u2[j]).start_offset == o by {
                    assert(u2[u.len() as int] == m);
                    if exists|j: int| 0 <= j < u.len() && (#[trigger] u[j]).start_offset == o {
                        let j = choose|j: int| 0 <= j < u.len() && (#[trigger] u[j]).start_offset == o;
                        assert(u2[j] == u[j]);
                    }
                    if exists|j: int| 0 <= j < u2.len() && (#[trigger] u2[j]).start_offset == o {
                        let j = choose|j: int| 0 <= j < u2.len() && (#[trigger] u2[j]).start_offset == o;
                        if j < u.len() {
                            assert(u2[j] == u[j]);
                        }
                    }
                }
                }
            }
        }
        idx = idx + 1;
    }
    assert(all.take(all.len() as int) =~= all);
    kept
}

/// The results that one query reports for one file: its matches after
/// `--unique` and `--limit`, each with the query's position, the file's path
/// and source, and the work item's reason and issue.
pub fn collect_results(
    query_index: usize,
    item: &WorkItem,
    path: &String,
    source: &String,
    matches: Vec<QueryMatch>,
    options: Options,
) -> (results: Vec<ResultsCtx>)
    ensures
        results@.len() == reported_matches(matches@, options).len(),
        forall|i: int|
            0 <= i < results@.len() ==> {
                &&& (#[trigger] results@[i]).result == reported_matches(matches@, options)[i]
                &&& results@[i].query_index == query_index
                &&& results@[i].path == *path
                &&& results@[i].source == *source
                &&& results@[i].reason == item.reason
                &&& results@[i].issue == item.issue
            },
{
    let kept = filter_matches(matches, options);
    let ghost k = kept@;
    let mut results: Vec<ResultsCtx> = Vec::new();
    let mut idx: usize = 0;
    let n: usize = kept.len();
    for m in it: kept.into_iter()
        invariant
            idx == it.index(),
            idx <= k.len(),
            n == k.len(),
            it.seq() == k,
            k == reported_matches(matches@, options),
            results@.len() == idx,
            forall|i: int|
                0 <= i < idx ==> {
                    &&& (#[trigger] results@[i]).result == k[i]
                    &&& results@[i].query_index == query_index
                    &&& results@[i].path == *path
                    &&& results@[i].source == *source
                    &&& results@[i].reason == item.reason
                    &&& results@[i].issue == item.issue
                },
    {
        results.push(
            ResultsCtx {
                query_index,
                path: path.clone(),
                source: source.clone(),
                result: m,
                reason: item.reason.clone(),
                issue: item.issue.clone(),
            },
        );
        idx = idx + 1;
    }
    results
}

} // verus!
