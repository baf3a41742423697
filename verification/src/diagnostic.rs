//! Diagnostics for tag misuse. One diagnostic is built per offending tag, and
//! they are returned together as a single bundle, never one at a time.

use vstd::prelude::*;

use crate::tags::Tag;

verus! {

/// One report of a misused tag: the tag itself and a message saying why it
/// was rejected.
#[derive(Debug, Clone, PartialEq, Eq)]
pub struct Diagnostic {
    pub tag: Tag,
    pub message: String,
}

impl Tag {
    /// Turns this tag plus a message into a diagnostic that references it.
    pub fn diagnostic(self, message: &str) -> (d: Diagnostic)
        ensures
            d.tag == self,
            d.message@ == message@,
    {
        Diagnostic { tag: self, message: message.to_owned() }
    }
}

/// An ordered bundle of diagnostics. A failed parse returns every diagnostic
/// for the comment at once.
#[derive(Debug, Clone, PartialEq, Eq)]
pub struct Diagnostics {
    pub diagnostics: Vec<Diagnostic>,
}

impl Diagnostics {
    /// How many diagnostics the bundle holds.
    pub fn len(&self) -> (n: usize)
        ensures
            n == self.diagnostics@.len(),
    {
        self.diagnostics.len()
    }
}

impl From<Vec<Diagnostic>> for Diagnostics {
    fn from(diagnostics: Vec<Diagnostic>) -> (r: Diagnostics) {
        Diagnostics { diagnostics }
    }
}

impl vstd::std_specs::convert::FromSpecImpl<Vec<Diagnostic>> for Diagnostics {
    open spec fn obeys_from_spec() -> bool {
        true
    }

    open spec fn from_spec(v: Vec<Diagnostic>) -> Diagnostics {
        Diagnostics { diagnostics: v }
    }
}

} // verus!
