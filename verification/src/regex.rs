//! Compiled regular expressions (through the `fancy_regex` crate) and the
//! map from query variables to the regex constraints placed on them.

use vstd::prelude::*;

use crate::text::str_equal;

verus! {

/// The regex type of `fancy_regex`.
#[verifier::external_type_specification]
#[verifier::external_body]
pub struct ExRegex(fancy_regex::Regex);

/// The error type of `fancy_regex`, for patterns that fail to compile and
/// searches that fail at run time.
#[verifier::external_type_specification]
#[verifier::external_body]
pub struct ExRegexError(fancy_regex::Error);

/// Whether `fancy_regex` accepts `pattern` (with its default options).
pub uninterp spec fn regex_compiles(pattern: Seq<char>) -> bool;

/// What `fancy_regex` answers when asked whether the regex compiled from
/// `pattern` matches somewhere in `text`: `Some(found)`, or `None` when the
/// search fails (such as on exceeding its backtrack limit).
pub uninterp spec fn regex_search(pattern: Seq<char>, text: Seq<char>) -> Option<bool>;

/// Calls `fancy_regex::Regex::new`, which compiles `pattern` with the
/// default options; whether it succeeds is named `regex_compiles`.
#[verifier::external_body]
fn regex_new(pattern: &str) -> (r: Result<fancy_regex::Regex, fancy_regex::Error>)
    ensures
        r is Ok <==> regex_compiles(pattern@),
{
    fancy_regex::Regex::new(pattern)
}

/// Calls `fancy_regex::Regex::is_match` on the regex held by `re`, which was
/// compiled from `re@`; its answer is named `regex_search`.
#[verifier::external_body]
fn regex_is_match(re: &CompiledRegex, text: &str) -> (r: Result<bool, fancy_regex::Error>)
    ensures
        match r {
            Ok(found) => regex_search(re@, text@) == Some(found),
            Err(_) => regex_search(re@, text@) is None,
        },
{
    re.regex.is_match(text)
}

/// The message that `fancy_regex::Error` displays (its `Display` impl).
/// Nothing is stated of the text.
#[verifier::external_body]
pub(crate) fn regex_error_text(e: &fancy_regex::Error) -> String {
    format!("{}", e)
}

/// A regex together with the pattern it was compiled from. It is only built
/// by `CompiledRegex::new`, so the regex always is the one `fancy_regex`
/// compiles from the pattern.
#[derive(Debug)]
pub struct CompiledRegex {
    pattern: String,
    regex: fancy_regex::Regex,
}

impl View for CompiledRegex {
    type V = Seq<char>;

    /// The pattern the regex was compiled from.
    closed spec fn view(&self) -> Seq<char> {
        self.pattern@
    }
}

impl CompiledRegex {
    /// Compile `pattern`; fails exactly when `fancy_regex` rejects it.
    pub fn new(pattern: &str) -> (r: Result<CompiledRegex, fancy_regex::Error>)
        ensures
            r is Ok <==> regex_compiles(pattern@),
            r matches Ok(c) ==> c@ == pattern@,
    {
        match regex_new(pattern) {
            Ok(regex) => Ok(CompiledRegex { pattern: String::from_str(pattern), regex }),
            Err(e) => Err(e),
        }
    }

    /// The pattern the regex was compiled from.
    pub fn as_str(&self) -> (s: &str)
        ensures
            s@ == self@,
    {
        self.pattern.as_str()
    }

    /// Whether the regex matches somewhere in `text`; an error when the
    /// search itself fails.
    pub fn is_match(&self, text: &str) -> (r: Result<bool, fancy_regex::Error>)
        ensures
            match r {
                Ok(found) => regex_search(self@, text@) == Some(found),
                Err(_) => regex_search(self@, text@) is None,
            },
    {
        regex_is_match(self, text)
    }
}

/// The map that a sequence of `(variable, (negative, regex))` entries
/// denotes when inserted in order: a later entry for a variable replaces an
/// earlier one.
pub open spec fn entries_map(entries: Seq<(String, (bool, CompiledRegex))>) -> Map<
    Seq<char>,
    (bool, Seq<char>),
>
    decreases entries.len(),
{
    if entries.len() == 0 {
        Map::empty()
    } else {
        let last = entries.last();
        entries_map(entries.drop_last()).insert(last.0@, (last.1.0, last.1.1@))
    }
}

/// Regex constraints on query variables: for each variable (such as `$x`),
/// whether the constraint is negative (the variable must not match) and the
/// regex it must (or must not) match.
#[derive(Debug)]
pub struct RegexMap {
    entries: Vec<(String, (bool, CompiledRegex))>,
}

impl View for RegexMap {
    type V = Map<Seq<char>, (bool, Seq<char>)>;

    /// Each constrained variable, mapped to its negative flag and pattern.
    closed spec fn view(&self) -> Map<Seq<char>, (bool, Seq<char>)> {
        entries_map(self.entries@)
    }
}

impl RegexMap {
    /// A map without constraints.
    pub fn new() -> (m: RegexMap)
        ensures
            m@ == Map::<Seq<char>, (bool, Seq<char>)>::empty(),
    {
        RegexMap { entries: Vec::new() }
    }

    /// Constrain `variable`, replacing any earlier constraint on it.
    pub fn insert(&mut self, variable: String, negative: bool, regex: CompiledRegex)
        ensures
            final(self)@ == old(self)@.insert(variable@, (negative, regex@)),
    {
        let ghost before = self.entries@;
        self.entries.push((variable, (negative, regex)));
        assert(self.entries@.drop_last() =~= before);
    }

    /// The constraint on `variable`, if any.
    pub fn get(&self, variable: &str) -> (r: Option<&(bool, CompiledRegex)>)
        ensures
            r is Some <==> self@.contains_key(variable@),
            r matches Some(c) ==> self@[variable@] == (c.0, c.1@),
    {
        proof {
            lemma_entries_map_lookup(self.entries@, variable@);
        }
        let mut i: usize = self.entries.len();
        while i > 0
            invariant
                i <= self.entries@.len(),
                forall|m: int| i <= m < self.entries@.len() ==> (#[trigger] self.entries@[m]).0@ != variable@,
            decreases i,
        {
            i = i - 1;
            if str_equal(self.entries[i].0.as_str(), variable) {
                proof {
                    lemma_entries_map_lookup(self.entries@, variable@);
                }
                return Some(&self.entries[i].1);
            }
        }
        None
    }

    /// The constrained variables, each once.
    pub fn variables(&self) -> (vars: Vec<String>)
        ensures
            forall|x: int| 0 <= x < vars@.len() ==> self@.contains_key(#[trigger] vars@[x]@),
            forall|k: Seq<char>| #[trigger] self@.contains_key(k) ==> exists|x: int|
                0 <= x < vars@.len() && (#[trigger] vars@[x])@ == k,
            forall|x: int, y: int| 0 <= x < y < vars@.len() ==> (#[trigger] vars@[x])@ != (#[trigger] vars@[y])@,
    {
        let ghost e = self.entries@;
        let mut vars: Vec<String> = Vec::new();
        let mut i: usize = 0;
        while i < self.entries.len()
            invariant
                e == self.entries@,
                i <= e.len(),
                forall|m: int| 0 <= m < i ==> exists|x: int|
                    0 <= x < vars@.len() && (#[trigger] vars@[x])@ == (#[trigger] e[m]).0@,
                forall|x: int| 0 <= x < vars@.len() ==> exists|m: int|
                    0 <= m < i && (#[trigger] e[m]).0@ == (#[trigger] vars@[x])@,
                forall|x: int, y: int| 0 <= x < y < vars@.len() ==> (#[trigger] vars@[x])@ != (#[trigger] vars@[y])@,
            decreases e.len() - i,
        {
            let mut seen = false;
            let mut j: usize = 0;
            while j < vars.len()
                invariant
                    j <= vars@.len(),
                    i < e.len(),
                    e == self.entries@,
                    seen ==> exists|x: int| 0 <= x < vars@.len() && (#[trigger] vars@[x])@ == e[i as int].0@,
                    !seen ==> forall|x: int| 0 <= x < j ==> (#[trigger] vars@[x])@ != e[i as int].0@,
                decreases vars@.len() - j,
            {
                if str_equal(vars[j].as_str(), self.entries[i].0.as_str()) {
                    seen = true;
                }
                j = j + 1;
            }
            let ghost before = vars@;
            if !seen {
                vars.push(self.entries[i].0.clone());
                proof {
                    assert forall|m: int| 0 <= m < i + 1 implies exists|x: int|
                        0 <= x < vars@.len() && (#[trigger] vars@[x])@ == (#[trigger] e[m]).0@ by {
                        if m < i {
                            let x = choose|x: int| 0 <= x < before.len() && (#[trigger] before[x])@ == e[m].0@;
                            assert(vars@[x] == before[x]);
                        } else {
                            assert(vars@[before.len() as int]@ == e[m].0@);
                        }
                    }
                    assert forall|x: int| 0 <= x < vars@.len() implies exists|m: int|
                        0 <= m < i + 1 && (#[trigger] e[m]).0@ == (#[trigger] vars@[x])@ by {
                        if x < before.len() {
                            assert(vars@[x] == before[x]);
                            let m = choose|m: int| 0 <= m < i && (#[trigger] e[m]).0@ == before[x]@;
                        } else {
                            assert(e[i as int].0@ == vars@[x]@);
                        }
                    }
                }
            }
            i = i + 1;
        }
        proof {
            lemma_entries_map_domain(e);
            assert forall|k: Seq<char>| #[trigger] self@.contains_key(k) implies exists|x: int|
                0 <= x < vars@.len() && (#[trigger] vars@[x])@ == k by {
                let m = choose|m: int| 0 <= m < e.len() && (#[trigger] e[m]).0@ == k;
            }
            assert forall|x: int| 0 <= x < vars@.len() implies self@.contains_key(#[trigger] vars@[x]@) by {
                let m = choose|m: int| 0 <= m < e.len() && (#[trigger] e[m]).0@ == vars@[x]@;
            }
        }
        vars
    }
}

/// A variable is in the map exactly when some entry names it, and then it
/// maps to the last entry that names it.
proof fn lemma_entries_map_lookup(entries: Seq<(String, (bool, CompiledRegex))>, k: Seq<char>)
    ensures
        entries_map(entries).contains_key(k) <==> exists|i: int|
            0 <= i < entries.len() && (#[trigger] entries[i]).0@ == k,
        forall|j: int|
            0 <= j < entries.len() && (#[trigger] entries[j]).0@ == k && (forall|m: int|
                j < m < entries.len() ==> (#[trigger] entries[m]).0@ != k) ==> entries_map(entries)[k]
                == (entries[j].1.0, entries[j].1.1@),
    decreases entries.len(),
{
    if entries.len() > 0 {
        let init = entries.drop_last();
        lemma_entries_map_lookup(init, k);
        assert forall|j: int|
            0 <= j < entries.len() && (#[trigger] entries[j]).0@ == k && (forall|m: int|
                j < m < entries.len() ==> (#[trigger] entries[m]).0@ != k) implies entries_map(entries)[k]
                == (entries[j].1.0, entries[j].1.1@) by {
            if j < entries.len() - 1 {
                assert(init[j] == entries[j]);
                assert forall|m: int| j < m < init.len() implies (#[trigger] init[m]).0@ != k by {
                    assert(init[m] == entries[m]);
                }
            }
        }
        if exists|i: int| 0 <= i < entries.len() && (#[trigger] entries[i]).0@ == k {
            let i = choose|i: int| 0 <= i < entries.len() && (#[trigger] entries[i]).0@ == k;
            if i < entries.len() - 1 {
                assert(init[i] == entries[i]);
            }
        }
        if exists|i: int| 0 <= i < init.len() && (#[trigger] init[i]).0@ == k {
            let i = choose|i: int| 0 <= i < init.len() && (#[trigger] init[i]).0@ == k;
            assert(entries[i] == init[i]);
        }
    }
}

/// The variables of the map are those named by some entry.
proof fn lemma_entries_map_domain(entries: Seq<(String, (bool, CompiledRegex))>)
    ensures
        forall|k: Seq<char>| #[trigger] entries_map(entries).contains_key(k) <==> exists|i: int|
            0 <= i < entries.len() && (#[trigger] entries[i]).0@ == k,
{
    assert forall|k: Seq<char>| #[trigger] entries_map(entries).contains_key(k) <==> exists|i: int|
        0 <= i < entries.len() && (#[trigger] entries[i]).0@ == k by {
        lemma_entries_map_lookup(entries, k);
    }
}

} // verus!
