# weggli_enhance

The verified core of a rule-driven semantic search tool for C and C++ code.
Rules files name an issue, a level and rules; each rule has query patterns
and regex constraints (`var=regex`, `var!=regex` for negative ones) on the
query variables.

`src/` is verified with Verus:

- `types` – rules, work items, query matches and reported results;
- `regex` – regexes compiled by `fancy_regex` and the constraint map;
- `rules` – parsing and validating constraints, level names;
- `files` – hidden entries, wanted extensions, inclusion and exclusion regexes;
- `pipeline` – which files are worth parsing, `--unique` and `--limit`;
- `chain` – keeping only results whose variables agree across the queries of a rule;
- `sarif` / `text` – lines and columns of results, one SARIF result per location;
- `cli` – default extensions and verbosity;
- `laws` – properties proved across these functions.

Constraint variables may be negated with `!` before the name (`!buf`,
`$!buf`) or after it (`buf!`, `$buf!`); both forms constrain `$buf`. Only one
marker is removed: the one before the name when there is one, so `!x!`
constrains `$x!`.

Two collections are kept as vectors rather than hash tables, because Verus
proves nothing of `HashMap`/`HashSet` lookups keyed by `String`:

- `RegexMap` holds its constraints in insertion order and a lookup takes the
  last entry for a variable, which is the map that inserting into a
  `HashMap` in the same order gives;
- SARIF deduplication scans the results kept so far for one with the same
  file, start line and issue, in place of a set of such keys.

Sets keyed by integers (query indices, start offsets) are `HashSet<usize>`.

`app/` holds the input and output around it: command line, rule file loading,
directory walking, the parallel pipeline and the reports. Parsing patterns into
queries and matching them against syntax trees is the query engine's work and
is passed to the pipeline as parameters.
