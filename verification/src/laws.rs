//! What the operations are for, said of their inputs and results alone.
//!
//! The laws of these modules describe results by characters, fields and literal
//! texts, and by how the results of several operations relate, not by the steps
//! in which they are computed.

pub mod answers;
pub mod calls;
pub mod characters;
pub mod completions;
pub mod cursors;
pub mod folds;
pub mod lines;
pub mod messages;
pub mod places;
pub mod renames;
pub mod sequences;
pub mod states;
pub mod symbols;
pub mod tokens;
pub mod views;
