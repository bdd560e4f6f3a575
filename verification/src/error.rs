//! What can go wrong, and why.

use vstd::prelude::*;

verus! {

/// Why a piece of markup was refused.
#[derive(Clone, Copy, Debug, PartialEq, Eq, Structural)]
pub enum Reason {
    /// The reader could not make sense of the text.
    Syntax,
    /// An end tag without a start tag, or a start tag that is never closed.
    Unbalanced,
    /// The attributes of a start tag could not be read.
    Attributes,
    /// Character data holds a reference that cannot be resolved.
    Entity,
    /// The fragment is not one element that wraps everything else.
    Root,
    /// An element that the record needs is not there.
    MissingElement,
    /// An attribute that the record needs is not there.
    MissingAttribute,
    /// An element that should hold text holds none.
    MissingText,
    /// A quotation does not have the shape of a quotation.
    Blockquote,
}

/// A fragment that does not decode.
#[derive(Clone, Copy, Debug, PartialEq, Eq, Structural)]
pub enum DecodeError {
    Malformed(Reason),
}

impl DecodeError {
    pub open spec fn reason(self) -> Reason {
        match self {
            DecodeError::Malformed(r) => r,
        }
    }
}

/// A page that could not be had.
#[derive(Clone, Copy, Debug, PartialEq, Eq, Structural)]
pub enum FetchError {
    /// The transport failed.
    Transport,
    /// The page came, and cannot be read as markup.
    Unreadable,
    /// The page holds no record, and no earlier page held one.
    EmptyPage,
}

/// An action that could not be carried out.
#[derive(Clone, Copy, Debug, PartialEq, Eq, Structural)]
pub enum NavError {
    /// A page that the action needed could not be had.
    Fetch(FetchError),
    /// The selection does not point at what the action works on.
    NotFound,
    /// Quitting was asked for while a repeat count was being entered.
    IllegalQuit,
    /// An action came while a page was awaited, or a page came that was not
    /// awaited.
    OutOfTurn,
}

} // verus!
