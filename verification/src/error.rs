use vstd::prelude::*;

verus! {

/// Why an operation on a context was refused.
#[derive(Clone, Copy, Debug, PartialEq, Eq, Structural)]
pub enum ContextError {
    /// The identifier names no record of the store, or the name no configuration.
    NotFound,
    /// The remote source handed back no record.
    RemoteFetchFailed,
    /// The edit does not apply to a record of the target's kind.
    UnsupportedEdit,
    /// More than twenty configurations were chained.
    ComposeDepthExceeded,
    /// The edit is reserved and has no defined effect yet.
    Unimplemented,
    /// The encoded state of a record could not be rewritten.
    SerializationFailed,
}

impl ContextError {
    /// A one-line description for the user.
    pub fn message(&self) -> (r: &'static str)
        ensures
            r@ == match *self {
                ContextError::NotFound => "No account found in context"@,
                ContextError::RemoteFetchFailed => "Fetching from the remote network failed"@,
                ContextError::UnsupportedEdit => "No upgrade authority on account"@,
                ContextError::ComposeDepthExceeded => "More than 20 composed configurations"@,
                ContextError::Unimplemented => "Editing data is not supported yet"@,
                ContextError::SerializationFailed => "Account data could not be encoded"@,
            },
    {
        match self {
            ContextError::NotFound => "No account found in context",
            ContextError::RemoteFetchFailed => "Fetching from the remote network failed",
            ContextError::UnsupportedEdit => "No upgrade authority on account",
            ContextError::ComposeDepthExceeded => "More than 20 composed configurations",
            ContextError::Unimplemented => "Editing data is not supported yet",
            ContextError::SerializationFailed => "Account data could not be encoded",
        }
    }
}

} // verus!
