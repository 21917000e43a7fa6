//! The run's arguments and their validation.

use vstd::prelude::*;
use vstd::utf8::encode_utf8;

verus! {

/// Why a run's arguments were rejected before any worker started.
#[derive(Clone, Copy, Debug, PartialEq, Eq, Structural)]
pub enum ValidationError {
    /// The optional message is longer than the 64 bytes the preimage
    /// buffer reserves for message and nonce together.
    MessageTooLong,
}

/// What a run needs: the identity the prefix starts with, an optional
/// message appended to it, and an optional per-worker iteration cap.
pub struct Args {
    pub username: String,
    pub message: Option<String>,
    pub iterations: Option<u64>,
}

impl Args {
    /// Accepts the arguments exactly when the message, if any, is at most
    /// 64 bytes long.
    pub fn validate(&self) -> (r: Result<(), ValidationError>)
        ensures
            r is Ok <==> (self.message matches Some(m) ==> encode_utf8(m@).len() <= 64),
            r is Err ==> r == Result::<(), ValidationError>::Err(ValidationError::MessageTooLong),
    {
        match &self.message {
            Some(m) => {
                if m.as_str().as_bytes().len() > 64 {
                    Err(ValidationError::MessageTooLong)
                } else {
                    Ok(())
                }
            },
            None => Ok(()),
        }
    }
}

} // verus!
