//! Rocq (Coq) source for SMT certificates.
//!
//! A certificate is re-stated as a module of Rocq declarations: the declaration context, an oracle
//! for each step that no tactic can replay, and inside a section one hypothesis or theorem per
//! step. The conclusion is exposed as the theorem `result`; closing the section generalises it over
//! the hypotheses, so the module never asserts them.
//!
//! Every emitted file makes Ltac2 its proof mode and ends with a query for the axioms that `result`
//! leans on.
pub mod certificate;
pub mod declaration_laws;
pub mod declarations;
pub mod document;
pub mod document_laws;
pub mod laws;
pub mod protocol;
pub mod step_laws;
pub mod steps;
pub mod symbol_laws;
pub mod symbols;
pub mod term;
pub mod term_laws;
pub mod text;
pub mod text_laws;

pub use crate::document::{emit_rocq, emit_rocq_project, try_emit_rocq, MissingImports};
pub use crate::symbols::unmapped_constants;
