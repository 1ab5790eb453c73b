//! Errors of the translation engine.

use vstd::prelude::*;

verus! {

/// What an Ingress lacks for it to be translated at all.
#[derive(Debug, Clone, Copy, PartialEq, Eq, Structural)]
pub enum ValidationError {
    MissingSpec,
    MissingRules,
    MissingNamespace,
}

/// Errors of the translation engine.
#[derive(Debug, Clone, PartialEq, Eq)]
pub enum I2GError {
    MissingAnnotation(String),
    ParseError(String),
    General(String),
    Validation(ValidationError),
    UnknownPathType(String),
    UnresolvableBackend(String),
    NoValidPaths,
}

} // verus!
