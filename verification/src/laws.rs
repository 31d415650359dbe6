//! Properties that hold across the library's functions, stated over the
//! specifications their contracts use.

use vstd::prelude::*;

use crate::chain::{bindings_chainable, chains_with_every_query};
use crate::files::{any_regex_matches, file_outcome};
use crate::regex::regex_search;
use crate::pipeline::{contains_bytes, item_may_match};
use vstd::utf8::encode_utf8;
use crate::pipeline::{first_per_start, passes_unique, reported_matches, values_distinct};
use crate::regex::CompiledRegex;
use crate::rules::{
    constraint_key, constraint_negative, constraints_map, with_dollar, without_leading_bang,
};
use crate::sarif::{first_per_location, same_location};
use crate::text::{clamp_offset, column_at, count_newlines, last_newline_before};
use crate::types::{Binding, Options, QueryMatch, ResultsCtx, WorkItem};

verus! {

/// Chainability is symmetric: `a` agrees with `b` on their shared variables
/// exactly when `b` agrees with `a`.
pub proof fn law_chainable_symmetric(a: Seq<Binding>, b: Seq<Binding>)
    ensures
        bindings_chainable(a, b) == bindings_chainable(b, a),
{
    if bindings_chainable(a, b) {
        assert forall|j: int, i: int|
            0 <= j < b.len() && 0 <= i < a.len() && #[trigger] b[j].variable@ == #[trigger] a[i].variable@
                implies b[j].value@ == a[i].value@ by {
        }
    }
    if bindings_chainable(b, a) {
        assert forall|i: int, j: int|
            0 <= i < a.len() && 0 <= j < b.len() && #[trigger] a[i].variable@ == #[trigger] b[j].variable@
                implies a[i].value@ == b[j].value@ by {
        }
    }
}

/// Two sets of bindings are chainable exactly when every variable bound in
/// both, at whatever positions, is bound to the same text in both: one
/// disagreement anywhere makes them not chainable.
pub proof fn law_chainable_agreement(a: Seq<Binding>, b: Seq<Binding>)
    ensures
        bindings_chainable(a, b) <==> forall|i: int, j: int|
            #![trigger a[i], b[j]]
            0 <= i < a.len() && 0 <= j < b.len() && a[i].variable@ == b[j].variable@ ==> a[i].value@
                == b[j].value@,
        forall|i: int, j: int|
            #![trigger a[i], b[j]]
            0 <= i < a.len() && 0 <= j < b.len() && a[i].variable@ == b[j].variable@ && a[i].value@
                != b[j].value@ ==> !bindings_chainable(a, b),
{
    if bindings_chainable(a, b) {
        assert forall|i: int, j: int|
            #![trigger a[i], b[j]]
            0 <= i < a.len() && 0 <= j < b.len() && a[i].variable@ == b[j].variable@ implies a[i].value@
                == b[j].value@ by {
        }
    }
}

/// A result is kept by cross-query filtering exactly when it is one of the
/// results and, for every other query that produced results, some result of
/// that query is chainable with it (agrees on every shared variable, see
/// `law_chainable_agreement`).
pub proof fn law_filter_keeps_exactly_chaining(results: Seq<ResultsCtx>, x: ResultsCtx)
    ensures
        results.filter(|r: ResultsCtx| chains_with_every_query(r, results)).contains(x) <==> (results.contains(x)
            && forall|j: int|
            0 <= j < results.len() && (#[trigger] results[j]).query_index != x.query_index ==> exists|k: int|
                0 <= k < results.len() && (#[trigger] results[k]).query_index == results[j].query_index
                    && bindings_chainable(x.result.bindings@, results[k].result.bindings@)),
{
    let pred = |r: ResultsCtx| chains_with_every_query(r, results);
    results.filter_lemma(pred);
    let f = results.filter(pred);
    if f.contains(x) {
        results.lemma_filter_contains_rev(pred, x);
        let i = choose|i: int| 0 <= i < f.len() && f[i] == x;
        assert(pred(f[i]));
    }
    if results.contains(x) && pred(x) {
        let i = choose|i: int| 0 <= i < results.len() && results[i] == x;
        assert(f.contains(results[i]));
    }
}

/// When all results come from one query there is no other query to chain
/// with, and cross-query filtering keeps every result.
pub proof fn law_single_query_keeps_all(results: Seq<ResultsCtx>, query_index: usize)
    requires
        forall|i: int| 0 <= i < results.len() ==> (#[trigger] results[i]).query_index == query_index,
    ensures
        results.filter(|a: ResultsCtx| chains_with_every_query(a, results)) == results,
{
    let pred = |a: ResultsCtx| chains_with_every_query(a, results);
    assert forall|i: int| 0 <= i < results.len() implies pred(#[trigger] results[i]) by {
        assert(results[i].query_index == query_index);
    }
    lemma_filter_all(results, pred);
}

/// Filtering with a predicate that holds of every element changes nothing.
proof fn lemma_filter_all<A>(s: Seq<A>, pred: spec_fn(A) -> bool)
    requires
        forall|i: int| 0 <= i < s.len() ==> pred(#[trigger] s[i]),
    ensures
        s.filter(pred) == s,
    decreases s.len(),
{
    reveal_with_fuel(Seq::<_>::filter, 1);
    if s.len() > 0 {
        let init = s.drop_last();
        assert forall|i: int| 0 <= i < init.len() implies pred(#[trigger] init[i]) by {
            assert(init[i] == s[i]);
        }
        lemma_filter_all(init, pred);
        assert(pred(s.last()));
        assert(s =~= init.push(s.last()));
    }
}

/// A result kept by cross-query filtering agrees, for every other query
/// that produced results, with at least one of that query's results.
pub proof fn law_kept_results_chain(results: Seq<ResultsCtx>, a: ResultsCtx, other: ResultsCtx)
    requires
        results.filter(|r: ResultsCtx| chains_with_every_query(r, results)).contains(a),
        results.contains(other),
        other.query_index != a.query_index,
    ensures
        exists|k: int|
            0 <= k < results.len() && (#[trigger] results[k]).query_index == other.query_index
                && bindings_chainable(a.result.bindings@, results[k].result.bindings@),
{
    let pred = |r: ResultsCtx| chains_with_every_query(r, results);
    results.filter_lemma(pred);
    let j = choose|j: int| 0 <= j < results.len() && results[j] == other;
    assert(results[j].query_index != a.query_index);
}

/// Adding a result of a query that already has results never removes a
/// result that cross-query filtering keeps.
pub proof fn law_more_results_keep_kept(results: Seq<ResultsCtx>, extra: ResultsCtx, i: int)
    requires
        exists|j: int| 0 <= j < results.len() && (#[trigger] results[j]).query_index == extra.query_index,
        0 <= i < results.len(),
        chains_with_every_query(results[i], results),
    ensures
        chains_with_every_query(results[i], results.push(extra)),
{
    let a = results[i];
    let more = results.push(extra);
    assert forall|j: int|
        0 <= j < more.len() && (#[trigger] more[j]).query_index != a.query_index implies exists|k: int|
            0 <= k < more.len() && (#[trigger] more[k]).query_index == more[j].query_index
                && bindings_chainable(a.result.bindings@, more[k].result.bindings@) by {
        let j0 = if j < results.len() {
            j
        } else {
            choose|j: int| 0 <= j < results.len() && (#[trigger] results[j]).query_index == extra.query_index
        };
        assert(results[j0].query_index == more[j].query_index);
        assert(results[j0].query_index != a.query_index);
        let k = choose|k: int|
            0 <= k < results.len() && (#[trigger] results[k]).query_index == results[j0].query_index
                && bindings_chainable(a.result.bindings@, results[k].result.bindings@);
        assert(more[k] == results[k]);
    }
}

/// Line numbers never decrease as the (byte) offset grows.
pub proof fn law_line_monotonic(bytes: Seq<u8>, p: int, q: int)
    requires
        0 <= p <= q,
    ensures
        count_newlines(bytes.take(clamp_offset(p, bytes.len() as int))) <= count_newlines(
            bytes.take(clamp_offset(q, bytes.len() as int)),
        ),
{
    lemma_newlines_between(
        bytes,
        clamp_offset(p, bytes.len() as int),
        clamp_offset(q, bytes.len() as int),
    );
}

/// Between positions `p <= q` of `bytes`: the line count grows by at least
/// one when a newline lies in `[p, q)`, and otherwise neither the count nor
/// the last newline before the position changes.
proof fn lemma_newlines_between(bytes: Seq<u8>, p: int, q: int)
    requires
        0 <= p <= q <= bytes.len(),
    ensures
        count_newlines(bytes.take(p)) <= count_newlines(bytes.take(q)),
        (exists|k: int| p <= k < q && bytes[k] == 10u8) ==> count_newlines(bytes.take(p))
            < count_newlines(bytes.take(q)),
        !(exists|k: int| p <= k < q && bytes[k] == 10u8) ==> count_newlines(bytes.take(p))
            == count_newlines(bytes.take(q)) && last_newline_before(bytes, p)
            == last_newline_before(bytes, q),
    decreases q - p,
{
    if p < q {
        lemma_newlines_between(bytes, p, q - 1);
        assert(bytes.take(q).drop_last() =~= bytes.take(q - 1));
        assert(bytes.take(q).last() == bytes[q - 1]);
        if bytes[q - 1] == 10u8 {
            assert(exists|k: int| p <= k < q && bytes[k] == 10u8);
        } else {
            assert(last_newline_before(bytes, q) == last_newline_before(bytes, q - 1));
            if exists|k: int| p <= k < q && bytes[k] == 10u8 {
                let k = choose|k: int| p <= k < q && bytes[k] == 10u8;
                assert(p <= k < q - 1);
            }
        }
    }
}

/// Within one line, columns advance by one per byte: two positions with
/// the same line number are as far apart in columns as in bytes.
pub proof fn law_columns_advance_within_line(bytes: Seq<u8>, p: int, q: int)
    requires
        0 <= p <= q <= bytes.len(),
        count_newlines(bytes.take(p)) == count_newlines(bytes.take(q)),
    ensures
        column_at(bytes, q) - column_at(bytes, p) == q - p,
{
    lemma_newlines_between(bytes, p, q);
}

/// Two different positions within a source never get the same line and
/// column.
pub proof fn law_positions_distinct(bytes: Seq<u8>, p: int, q: int)
    requires
        0 <= p <= bytes.len(),
        0 <= q <= bytes.len(),
        p != q,
    ensures
        count_newlines(bytes.take(p)) != count_newlines(bytes.take(q)) || column_at(bytes, p)
            != column_at(bytes, q),
{
    let (a, b) = if p < q {
        (p, q)
    } else {
        (q, p)
    };
    lemma_newlines_between(bytes, a, b);
}

/// A SARIF report loses no location: every result has a reported result with
/// the same file, start line and issue, and every reported result is one of
/// the results.
pub proof fn law_sarif_covers_every_location(s: Seq<crate::types::OutputResults>, j: int)
    requires
        0 <= j < s.len(),
    ensures
        exists|x: int|
            0 <= x < first_per_location(s).len() && (#[trigger] first_per_location(s)[x]).path@
                == s[j].path@ && first_per_location(s)[x].start_line == s[j].start_line
                && first_per_location(s)[x].issue@ == s[j].issue@,
        forall|x: int| 0 <= x < first_per_location(s).len() ==> s.contains(
            #[trigger] first_per_location(s)[x],
        ),
{
    crate::sarif::law_every_location_reported(s);
    let d = first_per_location(s);
    let x = choose|x: int| 0 <= x < d.len() && same_location(#[trigger] d[x], #[trigger] s[j]);
    assert(d[x].path@ == s[j].path@ && d[x].start_line == s[j].start_line && d[x].issue@ == s[j].issue@);
    assert forall|x: int| 0 <= x < d.len() implies s.contains(#[trigger] d[x]) by {
        let j = choose|j: int| 0 <= j < s.len() && #[trigger] d[x] == #[trigger] s[j];
    }
}

/// No two results of a SARIF report share file, start line and issue.
pub proof fn law_sarif_locations_distinct(s: Seq<crate::types::OutputResults>)
    ensures
        forall|x: int, y: int|
            0 <= x < y < first_per_location(s).len() ==> !(
            (#[trigger] first_per_location(s)[x]).path@ == (#[trigger] first_per_location(s)[y]).path@
                && first_per_location(s)[x].start_line == first_per_location(s)[y].start_line
                && first_per_location(s)[x].issue@ == first_per_location(s)[y].issue@),
    decreases s.len(),
{
    if s.len() > 0 {
        let init = s.drop_last();
        law_sarif_locations_distinct(init);
        crate::sarif::law_every_location_reported(init);
        let d = first_per_location(init);
        if !(exists|j: int| 0 <= j < init.len() && same_location(#[trigger] init[j], s.last())) {
            let e = first_per_location(s);
            assert forall|x: int, y: int| 0 <= x < y < e.len() implies !(
                (#[trigger] e[x]).path@ == (#[trigger] e[y]).path@ && e[x].start_line == e[y].start_line
                    && e[x].issue@ == e[y].issue@) by {
                if y == d.len() {
                    assert(e[x] == d[x]);
                    let j = choose|j: int| 0 <= j < init.len() && #[trigger] d[x] == #[trigger] init[j];
                    if e[x].path@ == e[y].path@ && e[x].start_line == e[y].start_line
                        && e[x].issue@ == e[y].issue@ {
                        assert(same_location(init[j], s.last()));
                    }
                } else {
                    assert(e[x] == d[x] && e[y] == d[y]);
                }
            }
        }
    }
}

/// With `--unique`, every reported match binds pairwise different values;
/// with `--limit`, no two reported matches start at the same offset.
pub proof fn law_reported_matches(ms: Seq<QueryMatch>, options: Options)
    ensures
        options.unique ==> forall|i: int, p: int, q: int|
            #![trigger reported_matches(ms, options)[i].bindings@[p], reported_matches(ms, options)[i].bindings@[q]]
            0 <= i < reported_matches(ms, options).len() && 0 <= p < q
                < reported_matches(ms, options)[i].bindings@.len() ==> reported_matches(
                ms,
                options,
            )[i].bindings@[p].value@ != reported_matches(ms, options)[i].bindings@[q].value@,
        options.limit ==> forall|j: int|
            0 <= j < ms.len() && passes_unique(#[trigger] ms[j], options) ==> exists|x: int|
                0 <= x < reported_matches(ms, options).len() && (#[trigger] reported_matches(
                    ms,
                    options,
                )[x]).start_offset == ms[j].start_offset,
        options.limit ==> forall|x: int, y: int|
            0 <= x < y < reported_matches(ms, options).len() ==> (#[trigger] reported_matches(
                ms,
                options,
            )[x]).start_offset != (#[trigger] reported_matches(ms, options)[y]).start_offset,
{
    let pu = |m: QueryMatch| passes_unique(m, options);
    let u = ms.filter(pu);
    u.filter_lemma(pu);
    if options.limit {
        lemma_first_per_start(u);
    }
    assert forall|i: int| 0 <= i < reported_matches(ms, options).len() implies pu(
        #[trigger] reported_matches(ms, options)[i],
    ) by {
        if options.limit {
            let j = choose|j: int| 0 <= j < u.len() && #[trigger] first_per_start(u)[i] == #[trigger] u[j];
        }
    }
    let r = reported_matches(ms, options);
    assert forall|i: int, p: int, q: int|
        #![trigger r[i].bindings@[p], r[i].bindings@[q]]
        options.unique && 0 <= i < r.len() && 0 <= p < q < r[i].bindings@.len() implies r[i].bindings@[p].value@
            != r[i].bindings@[q].value@ by {
        assert(pu(r[i]));
        assert(values_distinct(r[i].bindings@));
    }
    if options.limit {
        assert forall|j: int| 0 <= j < ms.len() && passes_unique(#[trigger] ms[j], options) implies exists|x: int|
            0 <= x < r.len() && (#[trigger] r[x]).start_offset == ms[j].start_offset by {
            assert(u.contains(ms[j]));
            let k = choose|k: int| 0 <= k < u.len() && u[k] == ms[j];
            let x = choose|x: int| 0 <= x < first_per_start(u).len() && (#[trigger] first_per_start(u)[x]).start_offset == (#[trigger] u[k]).start_offset;
        }
    }
}

/// Every match kept by `first_per_start` is an input match, and no two
/// kept matches share a start offset.
proof fn lemma_first_per_start(s: Seq<QueryMatch>)
    ensures
        forall|x: int| 0 <= x < first_per_start(s).len() ==> exists|j: int|
            0 <= j < s.len() && #[trigger] first_per_start(s)[x] == #[trigger] s[j],
        forall|x: int, y: int|
            0 <= x < y < first_per_start(s).len() ==> (#[trigger] first_per_start(s)[x]).start_offset
                != (#[trigger] first_per_start(s)[y]).start_offset,
        forall|j: int| 0 <= j < s.len() ==> exists|x: int|
            0 <= x < first_per_start(s).len() && (#[trigger] first_per_start(s)[x]).start_offset
                == (#[trigger] s[j]).start_offset,
    decreases s.len(),
{
    if s.len() > 0 {
        let init = s.drop_last();
        lemma_first_per_start(init);
        let d = first_per_start(init);
        let e = first_per_start(s);
        assert forall|j: int| 0 <= j < s.len() implies exists|x: int|
            0 <= x < e.len() && (#[trigger] e[x]).start_offset == (#[trigger] s[j]).start_offset by {
            if j < init.len() {
                assert(init[j] == s[j]);
                let x = choose|x: int| 0 <= x < d.len() && (#[trigger] d[x]).start_offset == (#[trigger] init[j]).start_offset;
                assert(e[x] == d[x]);
            } else if exists|k: int| 0 <= k < init.len() && (#[trigger] init[k]).start_offset == s.last().start_offset {
                let k = choose|k: int| 0 <= k < init.len() && (#[trigger] init[k]).start_offset == s.last().start_offset;
                let x = choose|x: int| 0 <= x < d.len() && (#[trigger] d[x]).start_offset == (#[trigger] init[k]).start_offset;
                assert(e[x] == d[x]);
            } else {
                assert(e[d.len() as int] == s[j]);
            }
        }
        assert forall|x: int| 0 <= x < e.len() implies exists|j: int|
            0 <= j < s.len() && #[trigger] e[x] == #[trigger] s[j] by {
            if x < d.len() {
                assert(e[x] == d[x]);
                let j = choose|j: int| 0 <= j < init.len() && #[trigger] d[x] == #[trigger] init[j];
                assert(init[j] == s[j]);
            } else {
                assert(e[x] == s[s.len() - 1]);
            }
        }
        if !(exists|j: int| 0 <= j < init.len() && (#[trigger] init[j]).start_offset == s.last().start_offset) {
            assert forall|x: int, y: int| 0 <= x < y < e.len() implies (#[trigger] e[x]).start_offset
                != (#[trigger] e[y]).start_offset by {
                if y == d.len() {
                    assert(e[x] == d[x]);
                    let j = choose|j: int| 0 <= j < init.len() && #[trigger] d[x] == #[trigger] init[j];
                } else {
                    assert(e[x] == d[x] && e[y] == d[y]);
                }
            }
        }
    }
}

/// Writing a variable with or without its leading `$` names the same
/// constrained variable, with the same negativity.
pub proof fn law_dollar_optional(var: Seq<char>)
    ensures
        constraint_key(with_dollar(var)) == constraint_key(var),
        constraint_negative(with_dollar(var)) == constraint_negative(var),
{
    assert(with_dollar(with_dollar(var)) == with_dollar(var));
}

/// A `!` before the variable's name or after it makes the same negative
/// constraint on the same variable: `!buf`, `$!buf`, `buf!` and `$buf!` all
/// constrain `$buf` negatively (for a name that starts with neither `$` nor
/// `!` and does not end with `!`).
pub proof fn law_negation_before_or_after(name: Seq<char>)
    requires
        name.len() > 0,
        name[0] != '$',
        name[0] != '!',
        name.last() != '!',
    ensures
        constraint_key(seq!['!'] + name) == seq!['$'] + name,
        constraint_key(seq!['$', '!'] + name) == seq!['$'] + name,
        constraint_key(name + seq!['!']) == seq!['$'] + name,
        constraint_key(seq!['$'] + name + seq!['!']) == seq!['$'] + name,
        constraint_negative(seq!['!'] + name),
        constraint_negative(seq!['$', '!'] + name),
        constraint_negative(name + seq!['!']),
        constraint_negative(seq!['$'] + name + seq!['!']),
        constraint_key(name) == seq!['$'] + name,
        !constraint_negative(name),
{
    let d = seq!['$'] + name;
    assert(with_dollar(seq!['!'] + name) =~= seq!['$', '!'] + name);
    assert((seq!['$', '!'] + name).skip(2) =~= name);
    assert(without_leading_bang(seq!['!'] + name) =~= d);
    assert(without_leading_bang(seq!['$', '!'] + name) =~= d);
    assert(d.last() == name.last());
    assert(with_dollar(name + seq!['!']) =~= d + seq!['!']);
    assert((d + seq!['!']).drop_last() =~= d);
    assert((seq!['$'] + name + seq!['!']) =~= d + seq!['!']);
    assert(with_dollar(name) =~= d);
    assert(d[1] == name[0]);
    assert((d + seq!['!'])[1] == name[0]);
}

/// Every variable that a set of constraints constrains starts with `$`.
pub proof fn law_constrained_variables_have_dollar(rs: Seq<String>)
    ensures
        forall|k: Seq<char>| #[trigger] constraints_map(rs).contains_key(k) ==> k.len() > 0 && k[0] == '$',
    decreases rs.len(),
{
    if rs.len() > 0 {
        law_constrained_variables_have_dollar(rs.drop_last());
        let var = crate::rules::constraint_variable(rs.last()@);
        // The name with a `$` and the name without a leading `!` both start
        // with `$`; a trailing `!` is only dropped when something precedes it.
        assert(with_dollar(var).len() > 0 && with_dollar(var)[0] == '$');
        assert(without_leading_bang(var).len() > 0 && without_leading_bang(var)[0] == '$');
        let k0 = constraint_key(var);
        assert(k0.len() > 0 && k0[0] == '$');
        let m0 = constraints_map(rs.drop_last());
        assert(constraints_map(rs) == m0.insert(k0, (constraint_negative(var), crate::rules::constraint_pattern(rs.last()@))));
        assert forall|k: Seq<char>| #[trigger] constraints_map(rs).contains_key(k) implies k.len() > 0 && k[0] == '$' by {
            if k != k0 {
                assert(m0.contains_key(k));
            }
        }
    }
}

/// A file that an exclusion regex matches is not searched, whatever the
/// inclusion regexes say.
pub proof fn law_exclusion_wins(exclude: Seq<CompiledRegex>, included: Seq<CompiledRegex>, path: Seq<char>)
    requires
        any_regex_matches(exclude, path) == Some(true),
    ensures
        file_outcome(exclude, included, path) == Some(false),
{
}

/// Trying regexes in order: none matches exactly when every search answers
/// "no match", and one matches exactly when some search finds a match after
/// all earlier ones answered "no match".
pub proof fn law_any_regex_matches(patterns: Seq<CompiledRegex>, text: Seq<char>)
    ensures
        any_regex_matches(patterns, text) == Some(false) <==> forall|i: int|
            0 <= i < patterns.len() ==> regex_search((#[trigger] patterns[i])@, text) == Some(false),
        any_regex_matches(patterns, text) == Some(true) <==> exists|i: int|
            0 <= i < patterns.len() && regex_search((#[trigger] patterns[i])@, text) == Some(true)
                && forall|k: int| 0 <= k < i ==> regex_search((#[trigger] patterns[k])@, text) == Some(false),
    decreases patterns.len(),
{
    if patterns.len() > 0 {
        let rest = patterns.drop_first();
        law_any_regex_matches(rest, text);
        assert forall|i: int| 0 <= i < rest.len() implies #[trigger] rest[i] == patterns[i + 1] by {}
        if regex_search(patterns[0]@, text) == Some(false) {
            if forall|i: int| 0 <= i < rest.len() ==> regex_search((#[trigger] rest[i])@, text) == Some(false) {
                assert forall|i: int| 0 <= i < patterns.len() implies regex_search((#[trigger] patterns[i])@, text)
                    == Some(false) by {
                    if i > 0 {
                        assert(patterns[i] == rest[i - 1]);
                    }
                }
            }
            if exists|i: int|
                0 <= i < patterns.len() && regex_search((#[trigger] patterns[i])@, text) == Some(true)
                    && forall|k: int| 0 <= k < i ==> regex_search((#[trigger] patterns[k])@, text) == Some(false) {
                let i = choose|i: int|
                    0 <= i < patterns.len() && regex_search((#[trigger] patterns[i])@, text) == Some(true)
                        && forall|k: int| 0 <= k < i ==> regex_search((#[trigger] patterns[k])@, text) == Some(false);
                assert(rest[i - 1] == patterns[i]);
                assert forall|k: int| 0 <= k < i - 1 implies regex_search((#[trigger] rest[k])@, text) == Some(false) by {
                    assert(rest[k] == patterns[k + 1]);
                }
            }
            if any_regex_matches(patterns, text) == Some(true) {
                let i = choose|i: int|
                    0 <= i < rest.len() && regex_search((#[trigger] rest[i])@, text) == Some(true)
                        && forall|k: int| 0 <= k < i ==> regex_search((#[trigger] rest[k])@, text) == Some(false);
                assert(patterns[i + 1] == rest[i]);
                assert forall|k: int| 0 <= k < i + 1 implies regex_search((#[trigger] patterns[k])@, text) == Some(false) by {
                    if k > 0 {
                        assert(patterns[k] == rest[k - 1]);
                    }
                }
            }
        } else if regex_search(patterns[0]@, text) == Some(true) {
            assert(regex_search(patterns[0]@, text) == Some(true));
        }
    }
}

/// When no exclusion regex matches and inclusion regexes are given, a file
/// is searched exactly when one of the inclusion regexes matches, however
/// many exclusion regexes there are.
pub proof fn law_inclusion_decides(exclude: Seq<CompiledRegex>, included: Seq<CompiledRegex>, path: Seq<char>)
    requires
        any_regex_matches(exclude, path) == Some(false),
        included.len() > 0,
    ensures
        file_outcome(exclude, included, path) == any_regex_matches(included, path),
{
}

/// When no exclusion regex matches and no inclusion regexes are given, the
/// file is searched.
pub proof fn law_no_inclusion_selects(exclude: Seq<CompiledRegex>, path: Seq<char>)
    requires
        any_regex_matches(exclude, path) == Some(false),
    ensures
        file_outcome(exclude, Seq::<CompiledRegex>::empty(), path) == Some(true),
{
}

/// The haystack's bytes from position `k` on begin with the needle's bytes,
/// compared one by one.
pub open spec fn bytes_match_at(haystack: Seq<u8>, needle: Seq<u8>, k: int) -> bool {
    0 <= k && k + needle.len() <= haystack.len() && forall|t: int|
        0 <= t < needle.len() ==> haystack[k + t] == #[trigger] needle[t]
}

/// A needle occurs in a haystack exactly when, from some position on, the
/// haystack's bytes equal the needle's bytes one by one.
pub proof fn law_contains_bytes(haystack: Seq<u8>, needle: Seq<u8>)
    ensures
        contains_bytes(haystack, needle) <==> exists|k: int| bytes_match_at(haystack, needle, k),
{
    if contains_bytes(haystack, needle) {
        let k = choose|k: int| crate::pipeline::occurs_at(haystack, needle, k);
        assert(haystack.subrange(k, k + needle.len()) == needle);
        assert forall|t: int| 0 <= t < needle.len() implies haystack[k + t] == #[trigger] needle[t] by {
            assert(haystack.subrange(k, k + needle.len())[t] == haystack[k + t]);
        }
        assert(bytes_match_at(haystack, needle, k));
    }
    assert forall|k: int| bytes_match_at(haystack, needle, k) implies contains_bytes(haystack, needle) by {
        assert(haystack.subrange(k, k + needle.len()) =~= needle);
        assert(crate::pipeline::occurs_at(haystack, needle, k));
    }
}

/// A work item may match a source exactly when every one of its identifiers
/// (not just some of them) occurs in the source.
pub proof fn law_item_needs_every_identifier(source: Seq<u8>, item: WorkItem)
    ensures
        item_may_match(source, item) <==> forall|i: int|
            0 <= i < item.identifiers@.len() ==> contains_bytes(
                source,
                encode_utf8((#[trigger] item.identifiers@[i])@),
            ),
        forall|i: int|
            0 <= i < item.identifiers@.len() && !contains_bytes(
                source,
                encode_utf8((#[trigger] item.identifiers@[i])@),
            ) ==> !item_may_match(source, item),
{
}

/// With `--limit`, the match kept for a start offset is the first one at
/// that offset: each kept match is an input match that no earlier input
/// match shares its start offset with.
pub proof fn law_limit_keeps_first(s: Seq<QueryMatch>)
    ensures
        forall|x: int| 0 <= x < first_per_start(s).len() ==> exists|j: int|
            0 <= j < s.len() && #[trigger] first_per_start(s)[x] == #[trigger] s[j] && forall|k: int|
                0 <= k < j ==> (#[trigger] s[k]).start_offset != s[j].start_offset,
    decreases s.len(),
{
    if s.len() > 0 {
        let init = s.drop_last();
        law_limit_keeps_first(init);
        let d = first_per_start(init);
        let e = first_per_start(s);
        assert forall|x: int| 0 <= x < e.len() implies exists|j: int|
            0 <= j < s.len() && #[trigger] e[x] == #[trigger] s[j] && forall|k: int|
                0 <= k < j ==> (#[trigger] s[k]).start_offset != s[j].start_offset by {
            if x < d.len() {
                assert(e[x] == d[x]);
                let j = choose|j: int|
                    0 <= j < init.len() && #[trigger] d[x] == #[trigger] init[j] && forall|k: int|
                        0 <= k < j ==> (#[trigger] init[k]).start_offset != init[j].start_offset;
                assert(init[j] == s[j]);
                assert forall|k: int| 0 <= k < j implies (#[trigger] s[k]).start_offset != s[j].start_offset by {
                    assert(init[k] == s[k]);
                }
            } else {
                let j = s.len() - 1;
                assert(e[x] == s[j]);
                assert forall|k: int| 0 <= k < j implies (#[trigger] s[k]).start_offset != s[j].start_offset by {
                    assert(init[k] == s[k]);
                }
            }
        }
    }
}

/// A SARIF report keeps, for each file, start line and issue, the first
/// result there: each kept result is a result that no earlier result shares
/// file, start line and issue with.
pub proof fn law_sarif_keeps_first(s: Seq<crate::types::OutputResults>)
    ensures
        forall|x: int| 0 <= x < first_per_location(s).len() ==> exists|j: int|
            0 <= j < s.len() && #[trigger] first_per_location(s)[x] == #[trigger] s[j] && forall|k: int|
                0 <= k < j ==> !((#[trigger] s[k]).path@ == s[j].path@ && s[k].start_line == s[j].start_line
                    && s[k].issue@ == s[j].issue@),
    decreases s.len(),
{
    if s.len() > 0 {
        let init = s.drop_last();
        law_sarif_keeps_first(init);
        let d = first_per_location(init);
        let e = first_per_location(s);
        assert forall|x: int| 0 <= x < e.len() implies exists|j: int|
            0 <= j < s.len() && #[trigger] e[x] == #[trigger] s[j] && forall|k: int|
                0 <= k < j ==> !((#[trigger] s[k]).path@ == s[j].path@ && s[k].start_line == s[j].start_line
                    && s[k].issue@ == s[j].issue@) by {
            if x < d.len() {
                assert(e[x] == d[x]);
                let j = choose|j: int|
                    0 <= j < init.len() && #[trigger] d[x] == #[trigger] init[j] && forall|k: int|
                        0 <= k < j ==> !((#[trigger] init[k]).path@ == init[j].path@ && init[k].start_line
                            == init[j].start_line && init[k].issue@ == init[j].issue@);
                assert(init[j] == s[j]);
                assert forall|k: int| 0 <= k < j implies !((#[trigger] s[k]).path@ == s[j].path@
                    && s[k].start_line == s[j].start_line && s[k].issue@ == s[j].issue@) by {
                    assert(init[k] == s[k]);
                }
            } else {
                let j = s.len() - 1;
                assert(e[x] == s[j]);
                assert forall|k: int| 0 <= k < j implies !((#[trigger] s[k]).path@ == s[j].path@
                    && s[k].start_line == s[j].start_line && s[k].issue@ == s[j].issue@) by {
                    assert(init[k] == s[k]);
                    if s[k].path@ == s[j].path@ && s[k].start_line == s[j].start_line && s[k].issue@ == s[j].issue@ {
                        assert(same_location(init[k], s.last()));
                    }
                }
            }
        }
    }
}

/// Lines are counted by newline bytes: none before the start, and each byte
/// adds one exactly when it is a newline.
pub proof fn law_count_newlines(bytes: Seq<u8>, b: u8)
    ensures
        count_newlines(Seq::<u8>::empty()) == 0,
        count_newlines(bytes.push(b)) == count_newlines(bytes) + if b == 10u8 { 1int } else { 0int },
{
    assert(bytes.push(b).drop_last() =~= bytes);
}

/// Columns start again at 1 right after a newline, and on the first line
/// the column of position `p` is `p + 1`.
pub proof fn law_column_restarts(bytes: Seq<u8>, p: int)
    requires
        0 <= p <= bytes.len(),
    ensures
        p >= 1 && bytes[p - 1] == 10u8 ==> column_at(bytes, p) == 1,
        (forall|k: int| 0 <= k < p ==> bytes[k] != 10u8) ==> column_at(bytes, p) == p + 1,
{
    if forall|k: int| 0 <= k < p ==> bytes[k] != 10u8 {
        lemma_newlines_between(bytes, 0, p);
    }
}

/// A constraint `var=pattern` whose variable holds no `=` splits at that
/// `=`: the variable is what precedes it and the pattern is all that
/// follows it, further `=` included.
pub proof fn law_constraint_parts(var: Seq<char>, pattern: Seq<char>)
    requires
        forall|i: int| 0 <= i < var.len() ==> var[i] != '=',
    ensures
        crate::rules::has_equals(var + seq!['='] + pattern),
        crate::rules::constraint_variable(var + seq!['='] + pattern) == var,
        crate::rules::constraint_pattern(var + seq!['='] + pattern) == pattern,
{
    let s = var + seq!['='] + pattern;
    let n = var.len() as int;
    assert(s[n] == '=');
    assert(crate::rules::is_first_equals(s, n));
    let e = crate::rules::equals_index(s);
    assert(crate::rules::is_first_equals(s, e));
    if e < n {
        assert(s[e] == var[e]);
    } else if e > n {
        assert(s[n] == '=');
    }
    assert(e == n);
    assert(s.take(n) =~= var);
    assert(s.skip(n + 1) =~= pattern);
}

/// A later constraint on a variable replaces an earlier one, and leaves the
/// constraints on other variables as they were.
pub proof fn law_later_constraint_wins(rs: Seq<String>, r: String)
    ensures
        constraints_map(rs.push(r)).contains_key(constraint_key(crate::rules::constraint_variable(r@))),
        constraints_map(rs.push(r))[constraint_key(crate::rules::constraint_variable(r@))] == (
            constraint_negative(crate::rules::constraint_variable(r@)),
            crate::rules::constraint_pattern(r@),
        ),
        forall|k: Seq<char>|
            k != constraint_key(crate::rules::constraint_variable(r@)) ==> (#[trigger] constraints_map(
                rs.push(r),
            ).contains_key(k) == constraints_map(rs).contains_key(k) && (constraints_map(rs).contains_key(k)
                ==> constraints_map(rs.push(r))[k] == constraints_map(rs)[k])),
{
    assert(rs.push(r).drop_last() =~= rs);
    assert(rs.push(r).last() == r);
}

/// The line count of a prefix is at most its length, and the last newline
/// before a position lies before it.
proof fn lemma_position_bounds(bytes: Seq<u8>, p: int)
    requires
        0 <= p <= bytes.len(),
    ensures
        count_newlines(bytes.take(p)) <= p,
        1 <= column_at(bytes, p) <= p + 1,
    decreases p,
{
    if p > 0 {
        lemma_position_bounds(bytes, p - 1);
        assert(bytes.take(p).drop_last() =~= bytes.take(p - 1));
        if bytes[p - 1] != 10u8 {
            assert(last_newline_before(bytes, p) == last_newline_before(bytes, p - 1));
        }
    }
}

/// A reported result never ends before it starts: when the match starts no
/// later than its function ends, its start line and column come no later
/// than its end line and column.
pub proof fn law_report_starts_before_end(ctx: ResultsCtx)
    requires
        crate::sarif::locatable(ctx),
        ctx.result.start_offset <= ctx.result.function_end,
    ensures
        crate::sarif::output_of(ctx).start_line < crate::sarif::output_of(ctx).end_line || (
        crate::sarif::output_of(ctx).start_line == crate::sarif::output_of(ctx).end_line
            && crate::sarif::output_of(ctx).start_column <= crate::sarif::output_of(ctx).end_column),
{
    let b = crate::sarif::source_bytes(ctx);
    let p = crate::sarif::clamped(ctx, ctx.result.start_offset);
    let q = crate::sarif::clamped(ctx, ctx.result.function_end);
    lemma_position_bounds(b, p);
    lemma_position_bounds(b, q);
    lemma_newlines_between(b, p, q);
}

/// Without any regexes every file is searched.
pub proof fn law_no_regexes_select_all(path: Seq<char>)
    ensures
        file_outcome(Seq::<CompiledRegex>::empty(), Seq::<CompiledRegex>::empty(), path) == Some(true),
{
}

} // verus!
