//! Regex constraints of rules (`var=regex`), their validation and
//! compilation, and the check that they name variables of the queries.

use vstd::prelude::*;
use vstd::string::StringExecFns;
use vstd::string::StrSliceExecFns;

use crate::regex::{CompiledRegex, RegexMap, regex_compiles, regex_error_text};
use crate::text::str_equal;
use crate::types::Level;

verus! {

/// Error for a regex constraint that is not of the form `var=regex`, or whose
/// regex does not compile.
#[derive(Debug)]
pub enum RegexError {
    InvalidArg(String),
    InvalidRegex(fancy_regex::Error),
}

impl From<fancy_regex::Error> for RegexError {
    fn from(err: fancy_regex::Error) -> (r: RegexError) {
        RegexError::InvalidRegex(err)
    }
}

impl vstd::std_specs::convert::FromSpecImpl<fancy_regex::Error> for RegexError {
    open spec fn obeys_from_spec() -> bool {
        true
    }

    open spec fn from_spec(v: fancy_regex::Error) -> RegexError {
        RegexError::InvalidRegex(v)
    }
}

impl RegexError {
    /// The message shown for the error: for an invalid argument it quotes
    /// the argument; for an invalid regex it is `Regex error: ` followed by
    /// the regex library's own description.
    pub fn message(&self) -> (m: String)
        ensures
            match self {
                RegexError::InvalidArg(s) => m@ == seq!['\''] + s@
                    + "' is not a valid argument of the form var=regex"@,
                RegexError::InvalidRegex(_) => "Regex error: "@.is_prefix_of(m@),
            },
    {
        match self {
            RegexError::InvalidArg(s) => {
                let mut m = String::from_str("'");
                m.append(s.as_str());
                m.append("' is not a valid argument of the form var=regex");
                proof {
                    reveal_strlit("'");
                }
                m
            },
            RegexError::InvalidRegex(e) => {
                let mut m = String::from_str("Regex error: ");
                let text = regex_error_text(e);
                m.append(text.as_str());
                m
            },
        }
    }
}

/// `i` is the position of the first `=` in `s`.
pub open spec fn is_first_equals(s: Seq<char>, i: int) -> bool {
    0 <= i < s.len() && s[i] == '=' && forall|j: int| 0 <= j < i ==> s[j] != '='
}

/// `s` holds an `=`.
pub open spec fn has_equals(s: Seq<char>) -> bool {
    exists|i: int| 0 <= i < s.len() && s[i] == '='
}

/// The position of the first `=` in `s` (meaningful when `has_equals(s)`).
pub open spec fn equals_index(s: Seq<char>) -> int {
    choose|i: int| is_first_equals(s, i)
}

/// The variable part of a constraint: what precedes the first `=`.
pub open spec fn constraint_variable(s: Seq<char>) -> Seq<char> {
    s.take(equals_index(s))
}

/// The regex part of a constraint: what follows the first `=`.
pub open spec fn constraint_pattern(s: Seq<char>) -> Seq<char> {
    s.skip(equals_index(s) + 1)
}

/// A variable name with a leading `$`, added when missing.
pub open spec fn with_dollar(var: Seq<char>) -> Seq<char> {
    if var.len() > 0 && var[0] == '$' {
        var
    } else {
        seq!['$'] + var
    }
}

/// The `$`-prefixed variable starts with `!` right after its `$`
/// (`!buf` or `$!buf`).
pub open spec fn leading_bang(var: Seq<char>) -> bool {
    with_dollar(var).len() >= 2 && with_dollar(var)[1] == '!'
}

/// The `$`-prefixed variable without a `!` right after its `$`.
pub open spec fn without_leading_bang(var: Seq<char>) -> Seq<char> {
    if leading_bang(var) {
        seq!['$'] + with_dollar(var).skip(2)
    } else {
        with_dollar(var)
    }
}

/// The `$`-prefixed variable ends with `!` (`buf!` or `$buf!`).
pub open spec fn trailing_bang(var: Seq<char>) -> bool {
    with_dollar(var).len() >= 2 && with_dollar(var).last() == '!'
}

/// A constraint is negative when its variable is marked with `!`, either
/// before the name (`!buf`, `$!buf`) or after it (`buf!`, `$buf!`).
pub open spec fn constraint_negative(var: Seq<char>) -> bool {
    leading_bang(var) || trailing_bang(var)
}

/// The variable a constraint applies to: `$`-prefixed, without the one `!`
/// that marks a negative constraint. A `!` before the name is that marker
/// when there is one; otherwise a `!` at the end is.
pub open spec fn constraint_key(var: Seq<char>) -> Seq<char> {
    if leading_bang(var) {
        without_leading_bang(var)
    } else if trailing_bang(var) {
        with_dollar(var).drop_last()
    } else {
        with_dollar(var)
    }
}

/// A constraint is valid when it has an `=` and its regex compiles.
pub open spec fn constraint_valid(s: Seq<char>) -> bool {
    has_equals(s) && regex_compiles(constraint_pattern(s))
}

/// `i` is the first invalid constraint of `rs`.
pub open spec fn first_invalid(rs: Seq<String>, i: int) -> bool {
    0 <= i < rs.len() && !constraint_valid(rs[i]@) && forall|j: int|
        0 <= j < i ==> constraint_valid(#[trigger] rs[j]@)
}

/// The constraint map that valid constraints `rs` denote, inserted in order
/// (a later constraint on a variable replaces an earlier one).
pub open spec fn constraints_map(rs: Seq<String>) -> Map<Seq<char>, (bool, Seq<char>)>
    decreases rs.len(),
{
    if rs.len() == 0 {
        Map::empty()
    } else {
        let s = rs.last()@;
        constraints_map(rs.drop_last()).insert(
            constraint_key(constraint_variable(s)),
            (constraint_negative(constraint_variable(s)), constraint_pattern(s)),
        )
    }
}

/// The position of the first `=` in `s`, if any.
fn find_equals(s: &str) -> (r: Option<usize>)
    ensures
        match r {
            Some(i) => is_first_equals(s@, i as int),
            None => !has_equals(s@),
        },
{
    let n: usize = s.unicode_len();
    let mut i: usize = 0;
    while i < n
        invariant
            n == s@.len(),
            i <= n,
            forall|j: int| 0 <= j < i ==> s@[j] != '=',
        decreases n - i,
    {
        if s.get_char(i) == '=' {
            return Some(i);
        }
        i = i + 1;
    }
    None
}

/// Normalize the variable part of a constraint: give it a leading `$` and
/// strip the one `!` that marks a negative constraint, before the name or,
/// when there is none there, after it.
fn normalize_variable(var: &str) -> (r: (String, bool))
    ensures
        r.0@ == constraint_key(var@),
        r.1 == constraint_negative(var@),
{
    proof {
        reveal_strlit("$");
    }
    let n: usize = var.unicode_len();
    let normalized = if n > 0 && var.get_char(0) == '$' {
        String::from_str(var)
    } else {
        let mut s = String::from_str("$");
        s.append(var);
        s
    };
    assert(normalized@ == with_dollar(var@));
    let m: usize = normalized.as_str().unicode_len();
    if m >= 2 && normalized.as_str().get_char(1) == '!' {
        let mut key = String::from_str("$");
        key.append(normalized.as_str().substring_char(2, m));
        assert(key@ =~= without_leading_bang(var@));
        (key, true)
    } else if m >= 2 && normalized.as_str().get_char(m - 1) == '!' {
        let key = normalized.as_str().substring_char(0, m - 1);
        assert(key@ =~= with_dollar(var@).drop_last());
        (String::from_str(key), true)
    } else {
        (normalized, false)
    }
}

/// Validate and compile regex constraints of the form `var=regex` (the
/// variable may omit its `$`; a `!` before or after its name makes the
/// constraint negative).
/// The first constraint without `=` gives `InvalidArg` with that constraint;
/// the first whose regex does not compile gives `InvalidRegex`.
pub fn process_regexes(regexes: &[String]) -> (r: Result<RegexMap, RegexError>)
    ensures
        r is Ok <==> forall|i: int| 0 <= i < regexes@.len() ==> constraint_valid(#[trigger] regexes@[i]@),
        match r {
            Ok(m) => m@ == constraints_map(regexes@),
            Err(RegexError::InvalidArg(s)) => exists|i: int|
                first_invalid(regexes@, i) && !has_equals(regexes@[i]@) && s@ == regexes@[i]@,
            Err(RegexError::InvalidRegex(_)) => exists|i: int|
                first_invalid(regexes@, i) && has_equals(regexes@[i]@),
        },
{
    let mut result = RegexMap::new();
    let mut i: usize = 0;
    while i < regexes.len()
        invariant
            i <= regexes@.len(),
            forall|j: int| 0 <= j < i ==> constraint_valid(#[trigger] regexes@[j]@),
            result@ == constraints_map(regexes@.take(i as int)),
        decreases regexes@.len() - i,
    {
        let r = &regexes[i];
        let s = r.as_str();
        let eq: usize = match find_equals(s) {
            Some(eq) => eq,
            None => {
                assert(first_invalid(regexes@, i as int));
                return Err(RegexError::InvalidArg(r.clone()));
            },
        };
        let n: usize = s.unicode_len();
        let var = s.substring_char(0, eq);
        let raw = s.substring_char(eq + 1, n);
        assert(equals_index(s@) == eq as int);
        assert(var@ == constraint_variable(s@));
        assert(raw@ == constraint_pattern(s@));
        let (key, negative) = normalize_variable(var);
        let regex = match CompiledRegex::new(raw) {
            Ok(regex) => regex,
            Err(e) => {
                assert(first_invalid(regexes@, i as int));
                return Err(RegexError::InvalidRegex(e));
            },
        };
        result.insert(key, negative, regex);
        assert(regexes@.take(i as int + 1).drop_last() =~= regexes@.take(i as int));
        i = i + 1;
    }
    assert(regexes@.take(regexes@.len() as int) =~= regexes@);
    Ok(result)
}

/// The first constrained variable that none of the query variables names,
/// if any.
pub fn unknown_constraint_variable(constraints: &RegexMap, variables: &[String]) -> (r: Option<String>)
    ensures
        r is None <==> forall|k: Seq<char>| #[trigger] constraints@.contains_key(k) ==> exists|i: int|
            0 <= i < variables@.len() && (#[trigger] variables@[i])@ == k,
        r matches Some(v) ==> constraints@.contains_key(v@) && forall|i: int|
            0 <= i < variables@.len() ==> (#[trigger] variables@[i])@ != v@,
{
    let keys = constraints.variables();
    let mut i: usize = 0;
    while i < keys.len()
        invariant
            i <= keys@.len(),
            forall|x: int| 0 <= x < keys@.len() ==> constraints@.contains_key(#[trigger] keys@[x]@),
            forall|k: Seq<char>| #[trigger] constraints@.contains_key(k) ==> exists|x: int|
                0 <= x < keys@.len() && (#[trigger] keys@[x])@ == k,
            forall|x: int| 0 <= x < i ==> exists|j: int|
                0 <= j < variables@.len() && (#[trigger] variables@[j])@ == (#[trigger] keys@[x])@,
        decreases keys@.len() - i,
    {
        let mut found = false;
        let mut j: usize = 0;
        while j < variables.len()
            invariant
                i < keys@.len(),
                j <= variables@.len(),
                found ==> exists|y: int| 0 <= y < variables@.len() && (#[trigger] variables@[y])@ == keys@[i as int]@,
                !found ==> forall|y: int| 0 <= y < j ==> (#[trigger] variables@[y])@ != keys@[i as int]@,
            decreases variables@.len() - j,
        {
            if str_equal(variables[j].as_str(), keys[i].as_str()) {
                found = true;
            }
            j = j + 1;
        }
        if !found {
            proof {
                let k = keys@[i as int]@;
                assert(constraints@.contains_key(k));
                assert(!(exists|y: int| 0 <= y < variables@.len() && (#[trigger] variables@[y])@ == k));
            }
            return Some(keys[i].clone());
        }
        i = i + 1;
    }
    proof {
        assert forall|k: Seq<char>| #[trigger] constraints@.contains_key(k) implies exists|i: int|
            0 <= i < variables@.len() && (#[trigger] variables@[i])@ == k by {
            let x = choose|x: int| 0 <= x < keys@.len() && (#[trigger] keys@[x])@ == k;
            assert(exists|j: int| 0 <= j < variables@.len() && (#[trigger] variables@[j])@ == keys@[x]@);
        }
    }
    None
}

/// The name of a rules file's level in SARIF output; `none` when unset.
pub fn level_name(level: Option<Level>) -> (name: &'static str)
    ensures
        name@ == match level {
            Some(Level::Error) => "error"@,
            Some(Level::Warning) => "warning"@,
            Some(Level::Note) => "note"@,
            None => "none"@,
        },
{
    match level {
        Some(Level::Error) => "error",
        Some(Level::Warning) => "warning",
        Some(Level::Note) => "note",
        None => "none",
    }
}

} // verus!
