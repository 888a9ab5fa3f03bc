pub mod checker;
pub mod prover;
