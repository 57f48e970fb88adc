# sentry-mirror

Accepts ingest traffic on configured inbound DSNs and forwards it to one or more outbound
DSNs each.

- `src/` is the library, verified with Verus: settings, DSNs and keys, the rewriting of
  requests and envelopes, data categories, and the decisions on how each request is answered.
  What it calls in other crates (`http` through `hyper`, `serde_json`, `regex`, and the
  decoders of `flate2`, `brotli` and `zstd`) stands behind small functions whose contracts say
  what is taken for granted of them.
- `app/` is the program around it: command line, configuration file, network, logs and metrics.
- `tests/` runs the library with those crates linked.
