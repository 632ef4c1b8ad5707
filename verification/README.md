# dns_pipeline

Verified building blocks of a DNS request pipeline: PROXY protocol v2 header
decoding (with a tenant TLV), per-client-IP and per-tenant fixed-window rate
limiters, a TTL clamping stage, record-type routing, a "fastest upstream wins"
race, and domain-list split routing.

- `src/` is the library, written in Verus. Its functions carry contracts and
  are proved against them, with four exceptions that are trusted, not proved:
  the wrappers around `String::from_utf8` (`proxy_protocol.rs`) and around
  `SystemTime::now`, `SystemTime::duration_since` and `Duration::as_secs`
  (`window.rs`), each of which only makes its std call. Laws that span
  several functions are public proof functions named `law_*`.
- `tests/` runs the library on concrete values.
- `app/` is the runtime glue that Verus does not see: configuration
  deserialization, reading from sockets, files and HTTP, locks, timers and
  async tasks. It hands the library plain values and acts on what comes back.
