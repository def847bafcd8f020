//! Errors reported by the library.
use vstd::prelude::*;

verus! {

/// Failure of a library operation, with a human-readable explanation.
#[derive(Debug)]
pub enum PadzError {
    /// A request that cannot be carried out as asked (bad selector, protection, ...).
    Api(String),
    /// The store does not hold what was asked for.
    Store(String),
    /// Reading or writing outside data failed.
    Io(String),
}

/// The kind of a [`PadzError`], without its text.
#[derive(Clone, Copy, Debug, PartialEq, Eq, Structural)]
pub enum ErrorKind {
    Api,
    Store,
    Io,
}

impl PadzError {
    pub open spec fn kind(&self) -> ErrorKind {
        match self {
            PadzError::Api(_) => ErrorKind::Api,
            PadzError::Store(_) => ErrorKind::Store,
            PadzError::Io(_) => ErrorKind::Io,
        }
    }

    /// The explanation carried by the error.
    pub fn message(&self) -> (r: String)
        ensures
            r@ == match self {
                PadzError::Api(m) => m@,
                PadzError::Store(m) => m@,
                PadzError::Io(m) => m@,
            },
    {
        match self {
            PadzError::Api(m) => m.clone(),
            PadzError::Store(m) => m.clone(),
            PadzError::Io(m) => m.clone(),
        }
    }
}

} // verus!
