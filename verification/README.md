# mediatime

Rational media timebases, and the timestamps, signed spans and half-open
ranges counted in them — with every conversion, comparison, rendering,
parser and wire codec verified by Verus against a specification written over
unbounded integers.

## Layout

- `src/model.rs` — the mathematical model: rationals, tick counts and
  intervals as unbounded integers, and the exact formulas (rounded rescale,
  truncated elapsed time) the contracts are stated in.
- `src/arith.rs` — rounded division, `gcd`, and the number theory under the
  canonical forms.
- `src/timebase.rs`, `src/timestamp.rs`, `src/time_range.rs` — the types and
  their operations, each with a contract over the model.
- `src/roster.rs` — the well-known timebases and frame rates, read both ways.
- `src/text.rs`, `src/parse.rs` — the renderings and the parsers that invert
  them.
- `src/varint.rs`, `src/wire.rs` — the protobuf wire format, over `buffa`'s
  varint, tag and skip primitives, whose reading (errors included) is stated
  and whose writers are proved to be read back.
- `src/primitives.rs` — the few `Duration` operations used, with their
  documented behaviour as contracts, and the integer `Hash` impls that the
  value-based hashes feed.
- `src/laws.rs`, `src/roster_laws.rs`, `src/round_trip.rs` — the laws that
  relate several operations: order and equality, canonical forms, the rescale
  ladder, the rosters as tables, and parsing as the inverse of rendering.
- `app/` — serde's data model, `Display`, the property-testing and fuzzing
  generators, and the floating-point `interpolate`.
