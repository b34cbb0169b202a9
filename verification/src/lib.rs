//! Arithmetization harness for a SHA-256 AIR: trace column groups, LogUp
//! fraction columns, relation combination, the composition of named
//! sub-components and the stage sequencing of proof generation.

pub mod balance;
pub mod columns;
pub mod components;
pub mod field;
pub mod field_laws;
pub mod logup;
pub mod orchestrator;
pub mod preprocessed;
pub mod relation;
pub mod trace;
