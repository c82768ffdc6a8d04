# revm_uint

A 256-bit unsigned integer, `U256`, stored as four little-endian `u64` limbs,
with its arithmetic written in Verus and proved against the natural number
that the limbs denote.

- `src/spec.rs` — the value model (`val4`, `wrap`, limb weights).
- `src/limbs.rs` — carry/borrow addition and subtraction, schoolbook
  multiplication, shifts, bit length, restoring long division, modular
  addition and multiplication, exponentiation, arithmetic shift.
- `src/bytes.rs` — big-endian byte encodings and their proofs.
- `src/backend.rs` — the `Uint256Ops` backend trait and its default.
- `src/uint.rs`, `src/order.rs`, `src/ops.rs`, `src/convert.rs`, `src/text.rs` —
  the `U256` API: methods, comparisons, operators, primitive conversions,
  parsing (through ruint) and decimal rendering.
- `src/laws.rs` — properties relating several operations.
- `app/` — process-wide backend installation, serde and formatting on a copy
  of the type, and conversions to and from `alloy_primitives` types.
