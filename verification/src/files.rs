//! Which files a search visits: hidden entries, wanted extensions and the
//! inclusion and exclusion regexes.

use vstd::prelude::*;
use vstd::string::StrSliceExecFns;

use crate::regex::{CompiledRegex, regex_compiles, regex_search};
use crate::text::str_equal;

verus! {

/// Outcome of trying the regexes `patterns` in order on `text` until one
/// matches: `Some(true)` when one matches, `Some(false)` when none does, and
/// `None` when a search fails before any match is found.
pub open spec fn any_regex_matches(patterns: Seq<CompiledRegex>, text: Seq<char>) -> Option<bool>
    decreases patterns.len(),
{
    if patterns.len() == 0 {
        Some(false)
    } else {
        match regex_search(patterns[0]@, text) {
            None => None,
            Some(true) => Some(true),
            Some(false) => any_regex_matches(patterns.drop_first(), text),
        }
    }
}

/// Whether a file with path `path` is searched: it must match no exclude
/// regex and, when included regexes are given, match one of them. `None`
/// when a regex search fails on the way.
pub open spec fn file_outcome(
    exclude: Seq<CompiledRegex>,
    included: Seq<CompiledRegex>,
    path: Seq<char>,
) -> Option<bool> {
    match any_regex_matches(exclude, path) {
        None => None,
        Some(true) => Some(false),
        Some(false) => if included.len() == 0 {
            Some(true)
        } else {
            any_regex_matches(included, path)
        },
    }
}

/// Compile the inclusion and exclusion patterns, in order; fails when one
/// of them does not compile.
pub fn compile_patterns(patterns: &[String]) -> (r: Result<Vec<CompiledRegex>, fancy_regex::Error>)
    ensures
        r is Ok <==> forall|i: int| 0 <= i < patterns@.len() ==> regex_compiles(#[trigger] patterns@[i]@),
        r matches Ok(v) ==> v@.len() == patterns@.len() && forall|i: int|
            0 <= i < patterns@.len() ==> (#[trigger] v@[i])@ == patterns@[i]@,
{
    let mut out: Vec<CompiledRegex> = Vec::new();
    let mut i: usize = 0;
    while i < patterns.len()
        invariant
            i <= patterns@.len(),
            out@.len() == i,
            forall|j: int| 0 <= j < i ==> regex_compiles(#[trigger] patterns@[j]@),
            forall|j: int| 0 <= j < i ==> (#[trigger] out@[j])@ == patterns@[j]@,
        decreases patterns@.len() - i,
    {
        match CompiledRegex::new(patterns[i].as_str()) {
            Ok(re) => out.push(re),
            Err(e) => return Err(e),
        }
        i = i + 1;
    }
    Ok(out)
}

/// Try the regexes in order on `text` until one matches.
fn any_matches(patterns: &[CompiledRegex], text: &str) -> (r: Result<bool, fancy_regex::Error>)
    ensures
        match r {
            Ok(found) => any_regex_matches(patterns@, text@) == Some(found),
            Err(_) => any_regex_matches(patterns@, text@) is None,
        },
{
    let mut i: usize = 0;
    assert(patterns@.skip(0) =~= patterns@);
    while i < patterns.len()
        invariant
            i <= patterns@.len(),
            any_regex_matches(patterns@, text@) == any_regex_matches(patterns@.skip(i as int), text@),
        decreases patterns@.len() - i,
    {
        assert(patterns@.skip(i as int).drop_first() =~= patterns@.skip(i as int + 1));
        assert(patterns@.skip(i as int)[0] == patterns@[i as int]);
        match patterns[i].is_match(text) {
            Ok(true) => return Ok(true),
            Ok(false) => {},
            Err(e) => return Err(e),
        }
        i = i + 1;
    }
    assert(patterns@.skip(i as int).len() == 0);
    Ok(false)
}

/// Whether a file is searched, given whether an exclusion regex matched its
/// path and, when inclusion regexes are given and no exclusion matched,
/// whether one of them matched.
pub fn file_decision(excluded: bool, included: Option<bool>) -> (keep: bool)
    ensures
        keep == (!excluded && match included {
            Some(found) => found,
            None => true,
        }),
{
    if excluded {
        false
    } else {
        match included {
            Some(found) => found,
            None => true,
        }
    }
}

/// Whether the file at `path` is searched under the exclusion and inclusion
/// regexes (see `file_outcome`); an error when a regex search fails.
pub fn file_selected(path: &str, exclude: &[CompiledRegex], included: &[CompiledRegex]) -> (r: Result<
    bool,
    fancy_regex::Error,
>)
    ensures
        match r {
            Ok(keep) => file_outcome(exclude@, included@, path@) == Some(keep),
            Err(_) => file_outcome(exclude@, included@, path@) is None,
        },
{
    let excluded = match any_matches(exclude, path) {
        Ok(found) => found,
        Err(e) => return Err(e),
    };
    let inclusion = if excluded || included.len() == 0 {
        None
    } else {
        match any_matches(included, path) {
            Ok(found) => Some(found),
            Err(e) => return Err(e),
        }
    };
    Ok(file_decision(excluded, inclusion))
}

/// Whether a directory entry is hidden: its name (when it is valid UTF-8)
/// starts with `.`. Hidden entries are skipped along with their contents.
pub fn is_hidden(file_name: Option<&str>) -> (r: bool)
    ensures
        r == match file_name {
            Some(name) => name@.len() > 0 && name@[0] == '.',
            None => false,
        },
{
    match file_name {
        Some(name) => !name.is_empty() && name.get_char(0) == '.',
        None => false,
    }
}

/// Whether a file whose extension is `extension` is searched: it must have
/// one, and it must be among `extensions`.
pub fn extension_selected(extension: Option<&str>, extensions: &[String]) -> (r: bool)
    ensures
        r == match extension {
            Some(e) => exists|i: int| 0 <= i < extensions@.len() && (#[trigger] extensions@[i])@ == e@,
            None => false,
        },
{
    match extension {
        None => false,
        Some(e) => {
            let mut i: usize = 0;
            while i < extensions.len()
                invariant
                    extension == Some(e),
                    i <= extensions@.len(),
                    forall|j: int| 0 <= j < i ==> (#[trigger] extensions@[j])@ != e@,
                decreases extensions@.len() - i,
            {
                if str_equal(extensions[i].as_str(), e) {
                    assert(extensions@[i as int]@ == e@);
                    return true;
                }
                i = i + 1;
            }
            false
        },
    }
}

} // verus!
