//! Helpers for writing procedural macros, with the decision logic of the
//! `strings` attribute macro stated and proved over a plain model of the
//! annotated enum.

pub mod case;
pub mod options;
pub mod seqs;
pub mod attribute;
pub mod expr;
pub mod strings;
pub mod strings_input;
pub mod syn_types;
pub mod fallible;
pub mod visit_macro;
pub mod generics;
