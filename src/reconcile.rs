//! Reconciliation of a recipe's child rows with a requested state.
pub mod ingredients;
pub mod tags;
pub mod instructions;
