//! A single-feature linear model: price as an affine function of distance.
//!
//! The crate holds the verifiable part of the system: command-line argument
//! recognition, the dataset table parser (header lookup, row extraction and
//! the numeric-literal grammar that decides which rows are kept), and the
//! fixed-layout binary codec for the fitted coefficients. The floating-point
//! work itself (gradient descent, normalization, estimation) lives with the
//! caller, which hands this crate plain strings and bytes.

pub mod args;
pub mod dataset;
pub mod number;
pub mod text;
pub mod theta;
