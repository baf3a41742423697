//! Core of a documentation generator: turns the ordered tag sequence of one
//! doc comment into a validated entry for a function or method, collecting a
//! diagnostic for every tag that does not apply instead of stopping at the
//! first one.

pub mod diagnostic;
pub mod doc_comment;
pub mod doc_entry;
pub mod realm;
pub mod tags;
