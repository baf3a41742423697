//! The source comment an entry was built from. Entries keep a read-only
//! borrow of it for traceability; the comment store outlives every entry.

use vstd::prelude::*;

verus! {

/// One doc comment as it stood in the source, before tag extraction.
#[derive(Debug, Clone, PartialEq, Eq)]
pub struct DocComment {
    pub text: String,
}

} // verus!
