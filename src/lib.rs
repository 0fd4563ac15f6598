//! Propositional-logic proof trainer: formulas, truth tables, rule sets,
//! natural-deduction proofs and their checker, and a theorem generator.

pub mod checker;
pub mod deduction;
pub mod dyn_table;
pub mod formula;
pub mod notation;
pub mod obfuscate;
pub mod oracle;
pub mod parser;
pub mod proof_search;
pub mod rules;
pub mod scope;
pub mod text;
pub mod theorem;
pub mod truth_table;
pub mod wire;
