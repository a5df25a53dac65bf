# asciicast-rs

Parsing of `asciicast` terminal recordings (v1, v2 and v3), with its core
logic verified by Verus.

## Layout

- `src/` is the verified library (`asciicast_rs`):
  - `text.rs`: whitespace trimming, decimal integers, debug quoting;
  - `versions/common.rs`: `#rrggbb` colours, palettes, resize and exit
    payloads, environment entries;
  - `versions/v2.rs`, `versions/v3.rs`: typing of event payloads;
  - `versions/mod.rs`: version markers and version detection;
  - `reader.rs`: line classification, the streaming reader's decisions and
    the eager newline-delimited parse;
  - `source.rs`: recognising zstd-compressed input;
  - `laws.rs`: properties that span inputs or functions.
- `app/` holds what the verifier does not see: reading files and streams,
  zstd decoding, JSON decoding into headers and events, floating-point timing,
  and the public `Asciicast`, `AsciicastVersioned` and `Reader` types built on
  the library.
- `tests/` exercises the library on concrete inputs.
