//! A dense, row-major matrix engine over IEEE 754 binary64 scalars.
//!
//! Scalars are carried by their bit patterns, so every value the engine
//! touches is a plain integer and every result is reproducible bit for bit.
//! The few arithmetic primitives that need rounding are delegated to a
//! software floating-point implementation; everything built on top of them
//! (storage, row operations, elimination, rank, determinant, inversion and
//! the textual decoding) is verified.

pub mod calc;
pub mod decode;
pub mod determinant;
pub mod elimination;
pub mod error;
pub mod grid;
pub mod ieee;
pub mod inverse;
pub mod laws;
pub mod matrix;
pub mod rowops;
pub mod scalar;

pub use calc::{AnswerState, MatrixCalc, Msg};
pub use error::MatrixError;
pub use matrix::Matrix;
pub use scalar::Scalar;
