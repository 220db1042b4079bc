//! The orchestra: what plays values into volumes of YAML text.
pub mod chord;
pub mod conductor;
pub mod performer;

use vstd::prelude::*;

verus! {

#[verifier::external_type_specification]
#[verifier::external_body]
pub struct ExIoError(std::io::Error);

/// What can go wrong while playing: a failure with a message, or one of
/// input and output.
#[derive(Debug)]
pub enum OrchError {
    Error(String),
    IoError(std::io::Error),
}

impl OrchError {
    /// A failure with a message.
    pub fn error(message: String) -> (r: OrchError)
        ensures
            r == OrchError::Error(message),
    {
        OrchError::Error(message)
    }
}

} // verus!
