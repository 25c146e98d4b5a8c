# grepai_cmd

Compact views of the output of `grepai`, a semantic code search tool. A search
becomes one row per result, a trace of callers or callees one row per file;
other output passes through, trimmed.

- `src/text.rs`, `src/path.rs`: lines, white space, numbers and paths.
- `src/pattern.rs`: the regular expressions of the listings, what they mean, and
  the call into the `regex` crate.
- `src/grammar.rs`: what each line says; every line can be read in one way.
- `src/search.rs`, `src/trace.rs`: `filter_search` and `filter_trace`.
- `src/command.rs`: which filter the output of a run goes through.
- `src/layout.rs`, `src/search_laws.rs`, `src/trace_laws.rs`, `src/order_laws.rs`:
  what holds of every report: one row per result or file, directories in one
  column, code bodies make no difference, calls are grouped by file and ranked
  whatever their order, a report is not filtered again.
- `app/`: runs `grepai` and prints the filtered output.

The library is verified with Verus. It trusts the contracts of
`pattern::captures` (`regex::Regex`), `command::decode`
(`String::from_utf8_lossy`) and `String::push`.
