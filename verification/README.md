# kiro_rs

Verified core of a Kiro-to-Anthropic API proxy, written in Verus.

- `src/kiro/model/events/metadata.rs` — server-side token usage: sanitizing,
  merging, totals, and removal of the proxy's injected prompt tokens.
- `src/kiro/model/events/base.rs` — event types of the Kiro event stream and
  the dispatch of a frame to an event.
- `src/kiro/error_rules.rs` — administrator-defined error rules: keyword
  matching, cleaning of rules from the panel, the rule table.
- `src/anthropic/cache_force.rs` — the Off / Auto / Force cache reporting
  modes and the TTL buckets of cache creation.
- `src/anthropic/empty_dump.rs` — decisions of empty-answer sampling: the
  switch, the directory, safe file names, body truncation.
- `src/anthropic/signature_sim.rs` — simulated message ids and thinking
  signatures (protobuf varints, length-delimited fields, base64).
- `src/text.rs` — character sequences of strings, trimming, substring search,
  truncation at character boundaries.

`app/` holds what the verifier does not see: settings with floating-point
ratios, stores shared behind locks, persistence, environment switches, and the
serde forms of the library's types.
