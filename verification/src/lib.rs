//! A software floating-point engine: a configurable-precision binary
//! floating-point type (sign, exponent, mantissa) with IEEE-754-compatible
//! semantics, built on integer arithmetic alone, together with a layer of
//! numerical algorithms (square root, remainder, sine, and the constants
//! pi and e) implemented directly on the raw representation.

pub mod arith;
pub mod bigint;
pub mod cast;
pub mod float;
pub mod functions;
pub mod utils;

pub use arith::add;
pub use bigint::LossFraction;
pub use float::Category;
pub use float::Float;
pub use float::RoundingMode;
pub use float::FP128;
pub use float::FP16;
pub use float::FP32;
pub use float::FP64;
