//! A minimal fully-connected feed-forward neural network trained by
//! backpropagation with momentum.
//!
//! All arithmetic is saturating fixed-point with 24 fractional bits: a stored
//! scalar `q` stands for the real number `q / 16777216`. The [`fp`] module defines
//! that algebra, [`model`] the recurrences a forward and a backward pass must
//! satisfy, [`neu`] the network engine itself, and [`laws`] the proved
//! properties that relate several operations.

#![verifier::loop_isolation(false)]

pub mod fp;

pub mod laws;

pub mod model;

pub mod neu;
