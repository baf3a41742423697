//! The closed set of annotation tags that a doc comment can carry, each with
//! its payload, already extracted from the raw comment text by the lexer.

use vstd::prelude::*;

verus! {

/// Payload of a parameter tag: one documented parameter, in source order.
#[derive(Debug, Clone, PartialEq, Eq)]
pub struct ParamTag {
    pub name: String,
    pub desc: String,
}

/// Payload of a return tag: one documented return value.
#[derive(Debug, Clone, PartialEq, Eq)]
pub struct ReturnTag {
    pub desc: String,
}

/// Payload of a deprecation tag: since when, and what to use instead.
#[derive(Debug, Clone, PartialEq, Eq)]
pub struct DeprecatedTag {
    pub version: String,
    pub desc: String,
}

/// Payload of a since tag: the version that introduced the item.
#[derive(Debug, Clone, PartialEq, Eq)]
pub struct SinceTag {
    pub version: String,
}

/// Payload of a custom tag: an opaque key/value pair passed through to the
/// renderer.
#[derive(Debug, Clone, PartialEq, Eq)]
pub struct CustomTag {
    pub name: String,
    pub value: String,
}

/// Payload of an error tag: one error the documented item can raise.
#[derive(Debug, Clone, PartialEq, Eq)]
pub struct ErrorTag {
    pub desc: String,
}

/// Payload of a within tag: the container an entry is filed under. Resolved
/// upstream, never by the entry builder itself.
#[derive(Debug, Clone, PartialEq, Eq)]
pub struct WithinTag {
    pub name: String,
}

/// Payload of a field tag: one documented field of a class or interface.
#[derive(Debug, Clone, PartialEq, Eq)]
pub struct FieldTag {
    pub name: String,
    pub desc: String,
}

/// One annotation from a doc comment. Payload-bearing variants carry what the
/// author wrote; the rest are pure markers. The set is closed: every builder
/// matches it exhaustively, so a new variant forces every entry kind to state
/// its handling.
#[derive(Debug, Clone, PartialEq, Eq)]
pub enum Tag {
    Param(ParamTag),
    Return(ReturnTag),
    Deprecated(DeprecatedTag),
    Since(SinceTag),
    Custom(CustomTag),
    Error(ErrorTag),
    Private,
    Unreleased,
    Yields,
    Ignore,
    Server,
    Client,
    Within(WithinTag),
    Field(FieldTag),
    ReadOnly,
}

} // verus!
