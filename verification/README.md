# prometheus_scraper

Parsing of the Prometheus / OpenMetrics exposition formats, text and
protobuf, into a typed metric model, with payload framing and an incremental
(Sans-I/O) decoder. The library in `src/` is written in Verus: every function
carries a contract over a mathematical model of the formats, and the laws the
library promises are proof functions checked by the verifier.

## Layout

- `src/model.rs`: the model (`SpecFamily`, `SpecMetric`, ...) that contracts
  speak of; `src/owned.rs` and `src/borrowed.rs` hold the two executable data
  models, each with a view into it, and `into_owned` proved to keep it.
- `src/text/`: the text format. `scan` finds family-sized frames in a byte
  stream; `header`, `lines`, `sample`, `lex`, `number` and `ws` read the
  lines of one family; `assemble` and `group` fold sample lines into metrics.
- `src/proto/`: the protobuf format. `scan` frames length-delimited messages;
  `wire` reads the wire records of a body with `buffa`'s primitives,
  borrowing payloads from the input; `view` decodes
  the messages of the `io.prometheus.client` schema; `translate` maps them
  onto the model; `unique` proves that the outcome depends on the bytes only.
- `src/payload.rs`: framing of whole payloads, the `Families` cursor and the
  incremental `Decoder` (its buffer is a `bytes::BytesMut`).
- `src/client.rs`: the `Accept` header and reading a `Content-Type`.
- `src/error.rs`: the per-family `ParseError`.
- `app/`: what the verifier does not see: the async HTTP client (`reqwest`),
  reading exact values as `f64` and `chrono` instants, and the serde form of
  the owned model.
- `tests/`: the test suite, run against the compiled library.

Floating-point values are kept exactly as written (a decimal literal, a bit
pattern or an integer), and text timestamps together with the unit they are
read in; `app/` turns them into numbers and instants.
