//! Decisions taken on the command line's values.

use vstd::prelude::*;
use vstd::string::StringExecFns;

verus! {

/// How much is logged.
#[derive(Debug, Clone, Copy, PartialEq, Eq, Structural)]
pub enum Verbosity {
    Warn,
    Info,
    Debug,
}

/// The verbosity for the number of times `-v` was given: warnings only by
/// default, information for one `-v`, debugging output for more.
pub fn verbosity(occurrences: u64) -> (v: Verbosity)
    ensures
        v == if occurrences == 0 {
            Verbosity::Warn
        } else if occurrences == 1 {
            Verbosity::Info
        } else {
            Verbosity::Debug
        },
{
    if occurrences == 0 {
        Verbosity::Warn
    } else if occurrences == 1 {
        Verbosity::Info
    } else {
        Verbosity::Debug
    }
}

/// The file extensions searched: those given, or by default `c` and `h`
/// (C mode) or `cc`, `cpp`, `h`, `cxx` and `hpp` (C++ mode).
pub fn resolve_extensions(given: Vec<String>, cpp: bool) -> (exts: Vec<String>)
    ensures
        given@.len() > 0 ==> exts@ == given@,
        given@.len() == 0 && !cpp ==> exts@.map_values(|s: String| s@) == seq!["c"@, "h"@],
        given@.len() == 0 && cpp ==> exts@.map_values(|s: String| s@) == seq![
            "cc"@,
            "cpp"@,
            "h"@,
            "cxx"@,
            "hpp"@,
        ],
{
    if given.len() > 0 {
        return given;
    }
    let mut exts: Vec<String> = Vec::new();
    if !cpp {
        exts.push(String::from_str("c"));
        exts.push(String::from_str("h"));
        assert(exts@.map_values(|s: String| s@) =~= seq!["c"@, "h"@]);
    } else {
        exts.push(String::from_str("cc"));
        exts.push(String::from_str("cpp"));
        exts.push(String::from_str("h"));
        exts.push(String::from_str("cxx"));
        exts.push(String::from_str("hpp"));
        assert(exts@.map_values(|s: String| s@) =~= seq!["cc"@, "cpp"@, "h"@, "cxx"@, "hpp"@]);
    }
    exts
}

} // verus!
