//! A 256-bit unsigned integer held as four little-endian 64-bit limbs, with
//! every arithmetic, bitwise, shift and conversion operation proved against
//! its value as a natural number.

pub mod spec;
pub mod limbs;
pub mod bytes;
pub mod backend;
pub mod uint;
pub mod order;
pub mod ops;
pub mod convert;
pub mod text;
pub mod laws;

pub use backend::{DefaultUint256Ops, Uint256Ops};
pub use text::ParseU256Error;
pub use uint::U256;
