//! Byte offsets into source text and the line/column positions they denote.

use vstd::prelude::*;
use vstd::string::StringSliceAdditionalSpecFns;
use vstd::utf8::*;

verus! {

/// Number of newline bytes (`\n`) in `bytes`.
pub open spec fn count_newlines(bytes: Seq<u8>) -> nat
    decreases bytes.len(),
{
    if bytes.len() == 0 {
        0
    } else {
        count_newlines(bytes.drop_last()) + if bytes.last() == 10u8 { 1nat } else { 0nat }
    }
}

/// `offset` clamped to the length `len`.
pub open spec fn clamp_offset(offset: int, len: int) -> int {
    if offset < len { offset } else { len }
}

/// The index of the last newline byte strictly before position `end`, if any.
pub open spec fn last_newline_before(bytes: Seq<u8>, end: int) -> Option<int>
    decreases end,
{
    if end <= 0 {
        None
    } else if bytes[end - 1] == 10u8 {
        Some(end - 1)
    } else {
        last_newline_before(bytes, end - 1)
    }
}

/// The 1-based column of position `end`: the distance from the last newline
/// before it, or `end + 1` on the first line.
pub open spec fn column_at(bytes: Seq<u8>, end: int) -> int {
    match last_newline_before(bytes, end) {
        Some(nl) => end - nl,
        None => end + 1,
    }
}

/// Convert a byte offset to a 0-based line number: the number of newlines in
/// the source before the offset (clamped to the source's length).
pub fn byte_to_line(source: &str, byte_offset: usize) -> (line: usize)
    requires
        is_char_boundary(
            source.spec_bytes(),
            clamp_offset(byte_offset as int, source.spec_bytes().len() as int),
        ),
    ensures
        line == count_newlines(
            source.spec_bytes().take(
                clamp_offset(byte_offset as int, source.spec_bytes().len() as int),
            ),
        ),
        line <= clamp_offset(byte_offset as int, source.spec_bytes().len() as int),
{
    let bytes = source.as_bytes();
    let clamped: usize = if byte_offset < bytes.len() { byte_offset } else { bytes.len() };
    let mut count: usize = 0;
    let mut i: usize = 0;
    while i < clamped
        invariant
            bytes@ == source.spec_bytes(),
            clamped <= bytes@.len(),
            i <= clamped,
            count == count_newlines(bytes@.take(i as int)),
            count <= i,
        decreases clamped - i,
    {
        assert(bytes@.take(i as int + 1).drop_last() =~= bytes@.take(i as int));
        if bytes[i] == 10u8 {
            count = count + 1;
        }
        i = i + 1;
    }
    count
}

/// Convert a byte offset to a 1-based column number on its line.
pub fn byte_to_column(source: &str, byte_offset: usize) -> (column: usize)
    requires
        is_char_boundary(
            source.spec_bytes(),
            clamp_offset(byte_offset as int, source.spec_bytes().len() as int),
        ),
        source.spec_bytes().len() < usize::MAX,
    ensures
        column == column_at(
            source.spec_bytes(),
            clamp_offset(byte_offset as int, source.spec_bytes().len() as int),
        ),
        1 <= column <= clamp_offset(byte_offset as int, source.spec_bytes().len() as int) + 1,
{
    let bytes = source.as_bytes();
    let clamped: usize = if byte_offset < bytes.len() { byte_offset } else { bytes.len() };
    let mut i: usize = clamped;
    while i > 0
        invariant
            bytes@ == source.spec_bytes(),
            clamped <= bytes@.len(),
            bytes@.len() < usize::MAX,
            clamped == clamp_offset(byte_offset as int, bytes@.len() as int),
            i <= clamped,
            last_newline_before(bytes@, clamped as int) == last_newline_before(bytes@, i as int),
        decreases i,
    {
        if bytes[i - 1] == 10u8 {
            assert(last_newline_before(bytes@, i as int) == Some(i as int - 1));
            return clamped - (i - 1);
        }
        assert(last_newline_before(bytes@, i as int) == last_newline_before(bytes@, i - 1));
        i = i - 1;
    }
    clamped + 1
}

/// The 1-based line on which the match starting at `start_offset` is shown
/// in terminal output.
pub fn terminal_line(source: &str, start_offset: usize) -> (line: usize)
    requires
        start_offset <= source.spec_bytes().len(),
        is_char_boundary(source.spec_bytes(), start_offset as int),
        source.spec_bytes().len() < usize::MAX,
    ensures
        line == count_newlines(source.spec_bytes().take(start_offset as int)) + 1,
{
    byte_to_line(source, start_offset) + 1
}

/// Whether two strings hold the same characters.
pub fn str_equal(a: &str, b: &str) -> (r: bool)
    ensures
        r == (a@ == b@),
{
    let x = a.as_bytes();
    let y = b.as_bytes();
    if x.len() != y.len() {
        proof {
            if a@ == b@ {
                assert(a.spec_bytes() == b.spec_bytes());
            }
        }
        return false;
    }
    let mut i: usize = 0;
    while i < x.len()
        invariant
            x@ == a.spec_bytes(),
            y@ == b.spec_bytes(),
            x@.len() == y@.len(),
            i <= x@.len(),
            forall|k: int| 0 <= k < i ==> x@[k] == y@[k],
        decreases x@.len() - i,
    {
        if x[i] != y[i] {
            proof {
                if a@ == b@ {
                    assert(a.spec_bytes() == b.spec_bytes());
                }
            }
            return false;
        }
        i = i + 1;
    }
    proof {
        assert(x@ =~= y@);
        encode_utf8_decode_utf8(a@);
        encode_utf8_decode_utf8(b@);
    }
    true
}

} // verus!
