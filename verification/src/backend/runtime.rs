//! The backend's error type.
use vstd::prelude::*;

verus! {

/// A failure of the Wayland backend, with its description.
#[derive(Clone, Debug, PartialEq, Eq)]
pub enum BackendError {
    Wayland(String),
}

impl BackendError {
    /// The human-readable description of the error.
    pub fn message(&self) -> (m: String)
        ensures
            m@ == match self {
                BackendError::Wayland(message) => message@,
            },
    {
        match self {
            BackendError::Wayland(message) => message.clone(),
        }
    }
}

} // verus!
