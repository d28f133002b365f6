//! Yield-pool shortlisting and the data contract of the external prover.

pub mod error;
pub mod feed;
pub mod pools;
pub mod prover;
pub mod text;
