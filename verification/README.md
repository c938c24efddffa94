# profile_evaluator

Evaluates an asset profile (YAML) against indicator data (JSON) and builds a
report: blocks are rendered into the report and into the `profile` context,
statements run their formula expression and render their title and report
text in the profile's language.

The library under `src/` is verified with Verus:

- `json` — the JSON values the evaluator works on; objects keep their keys in
  ascending order (a type invariant).
- `merge` — deep merge, with the laws that it works key by key and that
  merging the same source twice changes nothing (for values whose objects keep
  their keys in order at every depth, which every `Json` does).
- `serialize` — the inline text of a value (compact JSON through `serde_json`).
- `raw` — JSON values with members in an outside reader's order, and their
  verified conversion to and from `Json`.
- `formats` — reading YAML profiles and JSON indicators, and writing reports
  as JSON or YAML, through `serde_yaml` and `serde_json` behind trusted wrappers.
- `text` — trimming, splitting and searching strings.
- `pattern`, `template` — regular-expression scans (the `regex` crate) and
  handlebars rendering (the `handlebars` crate), behind trusted wrappers.
- `render` — templates and `{{ expr "..." }}` formulas, as a replay of the
  formula answers gathered so far.
- `profile` — turning the documents of a profile file into its information
  object and sections, include lists and include cycles.
- `loader` — loading a profile with its includes, as a machine that asks for
  each included file's text and refuses include cycles.
- `evaluate` — the evaluation as a state machine: each step either asks for a
  formula to be evaluated or moves on, until the report is finished.
- `laws` — properties that hold across calls and steps.

`app/` holds the command-line program: reading the files the loader asks
for, running the formula engine for the machine's requests, and printing
or saving the report.
