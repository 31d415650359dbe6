//! The results reported in SARIF output: their locations as lines and
//! columns, with one result per file, start line and issue.

use vstd::prelude::*;
use vstd::utf8::{encode_utf8, is_char_boundary};

use crate::text::{byte_to_column, byte_to_line, clamp_offset, column_at, count_newlines};
use crate::types::{OutputResults, ResultsCtx};

verus! {

/// The UTF-8 bytes of a result's source.
pub open spec fn source_bytes(ctx: ResultsCtx) -> Seq<u8> {
    encode_utf8(ctx.source@)
}

/// A byte offset of a result, clamped to its source.
pub open spec fn clamped(ctx: ResultsCtx, offset: usize) -> int {
    clamp_offset(offset as int, source_bytes(ctx).len() as int)
}

/// A result can be located when both of its offsets (clamped to the source)
/// fall on character boundaries and its length fits the machine's offsets
/// and the 64-bit line and column numbers of SARIF.
pub open spec fn locatable(ctx: ResultsCtx) -> bool {
    &&& is_char_boundary(source_bytes(ctx), clamped(ctx, ctx.result.start_offset))
    &&& is_char_boundary(source_bytes(ctx), clamped(ctx, ctx.result.function_end))
    &&& source_bytes(ctx).len() < i64::MAX
    &&& source_bytes(ctx).len() < usize::MAX
}

/// The reported form of a result: the match start and the end of its
/// function as 0-based lines and 1-based columns.
pub open spec fn output_of(ctx: ResultsCtx) -> OutputResults {
    OutputResults {
        query_index: ctx.query_index,
        path: ctx.path,
        reason: ctx.reason,
        issue: ctx.issue,
        start_line: count_newlines(source_bytes(ctx).take(clamped(ctx, ctx.result.start_offset))) as i64,
        start_column: column_at(source_bytes(ctx), clamped(ctx, ctx.result.start_offset)) as i64,
        end_line: count_newlines(source_bytes(ctx).take(clamped(ctx, ctx.result.function_end))) as i64,
        end_column: column_at(source_bytes(ctx), clamped(ctx, ctx.result.function_end)) as i64,
    }
}

/// Two reported results fall together when they share file, start line and
/// issue.
pub open spec fn same_location(a: OutputResults, b: OutputResults) -> bool {
    a.path@ == b.path@ && a.start_line == b.start_line && a.issue@ == b.issue@
}

/// The results none of whose predecessors shares their file, start line and
/// issue, in order.
pub open spec fn first_per_location(s: Seq<OutputResults>) -> Seq<OutputResults>
    decreases s.len(),
{
    if s.len() == 0 {
        s
    } else {
        let init = s.drop_last();
        if exists|j: int| 0 <= j < init.len() && same_location(#[trigger] init[j], s.last()) {
            first_per_location(init)
        } else {
            first_per_location(init).push(s.last())
        }
    }
}

/// Compute where a result starts and where its function ends.
pub fn output_result(ctx: ResultsCtx) -> (out: OutputResults)
    requires
        locatable(ctx),
    ensures
        out == output_of(ctx),
{
    let source = ctx.source.as_str();
    let start_line: usize = byte_to_line(source, ctx.result.start_offset);
    let start_column: usize = byte_to_column(source, ctx.result.start_offset);
    let end_line: usize = byte_to_line(source, ctx.result.function_end);
    let end_column: usize = byte_to_column(source, ctx.result.function_end);
    OutputResults {
        query_index: ctx.query_index,
        path: ctx.path,
        reason: ctx.reason,
        issue: ctx.issue,
        start_line: start_line as i64,
        start_column: start_column as i64,
        end_line: end_line as i64,
        end_column: end_column as i64,
    }
}

/// Deduplication loses no location: every result of the input has a kept
/// result at the same file, start line and issue, and every kept result is
/// one of the input's.
pub proof fn law_every_location_reported(s: Seq<OutputResults>)
    ensures
        forall|j: int| 0 <= j < s.len() ==> exists|x: int|
            0 <= x < first_per_location(s).len() && same_location(
                #[trigger] first_per_location(s)[x],
                #[trigger] s[j],
            ),
        forall|x: int| 0 <= x < first_per_location(s).len() ==> exists|j: int|
            0 <= j < s.len() && #[trigger] first_per_location(s)[x] == #[trigger] s[j],
    decreases s.len(),
{
    if s.len() > 0 {
        let init = s.drop_last();
        law_every_location_reported(init);
        let d = first_per_location(init);
        assert forall|j: int| 0 <= j < s.len() implies exists|x: int|
            0 <= x < first_per_location(s).len() && same_location(
                #[trigger] first_per_location(s)[x],
                #[trigger] s[j],
            ) by {
            if j < init.len() {
                assert(init[j] == s[j]);
                let x = choose|x: int| 0 <= x < d.len() && same_location(#[trigger] d[x], #[trigger] init[j]);
                assert(first_per_location(s)[x] == d[x]);
            } else if exists|k: int| 0 <= k < init.len() && same_location(#[trigger] init[k], s.last()) {
                let k = choose|k: int| 0 <= k < init.len() && same_location(#[trigger] init[k], s.last());
                let x = choose|x: int| 0 <= x < d.len() && same_location(#[trigger] d[x], #[trigger] init[k]);
                assert(first_per_location(s)[x] == d[x]);
            } else {
                assert(first_per_location(s)[d.len() as int] == s[j]);
            }
        }
        assert forall|x: int| 0 <= x < first_per_location(s).len() implies exists|j: int|
            0 <= j < s.len() && #[trigger] first_per_location(s)[x] == #[trigger] s[j] by {
            if x < d.len() {
                assert(first_per_location(s)[x] == d[x]);
                let j = choose|j: int| 0 <= j < init.len() && #[trigger] d[x] == #[trigger] init[j];
                assert(init[j] == s[j]);
            } else {
                assert(first_per_location(s)[x] == s[s.len() - 1]);
            }
        }
    }
}

/// Whether a kept result shares file, start line and issue with `r`.
fn seen_location(kept: &Vec<OutputResults>, r: &OutputResults) -> (found: bool)
    ensures
        found == exists|x: int| 0 <= x < kept@.len() && same_location(#[trigger] kept@[x], *r),
{
    let mut x: usize = 0;
    while x < kept.len()
        invariant
            x <= kept@.len(),
            forall|y: int| 0 <= y < x ==> !same_location(#[trigger] kept@[y], *r),
        decreases kept@.len() - x,
    {
        if kept[x].path == r.path && kept[x].start_line == r.start_line && kept[x].issue == r.issue {
            assert(same_location(kept@[x as int], *r));
            return true;
        }
        x = x + 1;
    }
    false
}

/// Keep the first result for each file, start line and issue.
pub fn dedup_output_results(results: Vec<OutputResults>) -> (kept: Vec<OutputResults>)
    ensures
        kept@ == first_per_location(results@),
{
    let ghost all = results@;
    let mut kept: Vec<OutputResults> = Vec::new();
    let n: usize = results.len();
    let mut idx: usize = 0;
    for r in it: results.into_iter()
        invariant
            idx == it.index(),
            idx <= all.len(),
            n == all.len(),
            it.seq() == all,
            kept@ == first_per_location(all.take(idx as int)),
    {
        assert(r == all[idx as int]);
        let ghost prefix = all.take(idx as int);
        proof {
            law_every_location_reported(prefix);
            assert(all.take(idx as int + 1).drop_last() =~= prefix);
            assert(all.take(idx as int + 1).last() == r);
        }
        let found = seen_location(&kept, &r);
        proof {
            if found {
                let x = choose|x: int| 0 <= x < kept@.len() && same_location(#[trigger] kept@[x], r);
                let j = choose|j: int| 0 <= j < prefix.len() && #[trigger] kept@[x] == #[trigger] prefix[j];
                assert(same_location(prefix[j], r));
            } else {
                if exists|j: int| 0 <= j < prefix.len() && same_location(#[trigger] prefix[j], r) {
                    let j = choose|j: int| 0 <= j < prefix.len() && same_location(#[trigger] prefix[j], r);
                    let x = choose|x: int| 0 <= x < kept@.len() && same_location(#[trigger] kept@[x], #[trigger] prefix[j]);
                    assert(same_location(kept@[x], r));
                }
            }
        }
        if !found {
            kept.push(r);
        }
        idx = idx + 1;
    }
    assert(all.take(all.len() as int) =~= all);
    kept
}

/// The results written to a SARIF report, in order: each result located by
/// line and column, keeping the first for each file, start line and issue.
pub fn sarif_results(results: Vec<ResultsCtx>) -> (out: Vec<OutputResults>)
    requires
        forall|i: int| 0 <= i < results@.len() ==> locatable(#[trigger] results@[i]),
    ensures
        out@ == first_per_location(results@.map_values(|c: ResultsCtx| output_of(c))),
{
    let ghost all = results@;
    let mut located: Vec<OutputResults> = Vec::new();
    let n: usize = results.len();
    let mut idx: usize = 0;
    for r in it: results.into_iter()
        invariant
            idx == it.index(),
            idx <= all.len(),
            n == all.len(),
            it.seq() == all,
            forall|i: int| 0 <= i < all.len() ==> locatable(#[trigger] all[i]),
            located@ == all.take(idx as int).map_values(|c: ResultsCtx| output_of(c)),
    {
        assert(r == all[idx as int]);
        located.push(output_result(r));
        assert(all.take(idx as int + 1).map_values(|c: ResultsCtx| output_of(c)) =~= all.take(
            idx as int,
        ).map_values(|c: ResultsCtx| output_of(c)).push(output_of(all[idx as int])));
        idx = idx + 1;
    }
    assert(all.take(all.len() as int) =~= all);
    dedup_output_results(located)
}

} // verus!
