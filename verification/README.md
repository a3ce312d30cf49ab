# fluxplay

The logic of the FluxPlay IPTV player as a verified library: every function
under `src/` carries a `requires` / `ensures` contract that Verus proves.

- `src/catalog.rs`: the catalog model, the merges that keep enrichment
  across portal reloads, source reloads, the portal spine checksum, the
  default live group, search patterns and the ingest tally.
- `src/sources.rs`: profile list rules (duplicate panels and accounts, the
  built-in demo, the add form, the boot list) and endpoint display.
- `src/browse.rs`: browse indices, the category sidebar, tabs.
- `src/art.rs`: artwork URLs, the image cache (LRU, in-flight cap, soft
  failures, host circuit breaker), download decisions and disk cache paths.
- `src/display.rs`, `src/gpu.rs`, `src/decimal.rs`: monitor / GPU probing
  from tool output, rate and tuning resolution.
- `src/android.rs`: the JNI calls the Android host makes, and the decisions
  around them (surface state, caches, document picker, external player).
- `src/nav.rs`, `src/playback.rs`, `src/actions.rs`: window navigation,
  shortcuts, zapping, series queues, message labels.
- `src/jobs.rs`: progress meters and chunked iteration.
- `src/laws.rs`: properties that relate several functions.

`app/` is the unverified host: process spawning, files, environment,
clock, and the serde copies of the model for JSON.
