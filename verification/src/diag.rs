//! The error taxonomy of the analysis core. `DuplicateSignature` is fatal at
//! registry construction; every other kind is a non-fatal, per-node diagnostic
//! that never stops analysis of the rest of the tree.

use vstd::prelude::*;

use crate::ast::Location;

verus! {

/// What went wrong, either while a catalog was registered or at one tree node.
#[derive(Debug, Clone, Copy, PartialEq, Eq, Structural)]
pub enum DiagKind {
    DuplicateSignature,
    TooFewArguments,
    TooManyArguments,
    UnknownKeyword,
    MissingRequiredKeyword,
    TypeMismatch,
    OperatorTypeMismatch,
    UnknownCallable,
}

/// A diagnostic collected against the source span of the node it arose at.
#[derive(Debug)]
pub struct Diagnostic {
    pub location: Location,
    pub kind: DiagKind,
}

} // verus!
