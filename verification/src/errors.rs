use vstd::prelude::*;

verus! {

/// Reasons a track cannot be streamed, distinct from authentication
/// failures so a client can tell "try another track" from "retry".
#[derive(Clone, Copy, Debug, PartialEq, Eq, Structural)]
pub enum AudioError {
    /// Neither the primary item nor any alternative is available.
    Unplayable,
    /// The chosen item offers none of the supported encodings.
    NoPlayableFormat,
    /// The content-decryption key could not be obtained.
    KeyError,
    /// The content body could not be opened or read.
    ReadFailure,
}

/// Error taxonomy of the server core.
#[derive(Clone, Debug)]
pub enum ServerError {
    /// Unknown or unauthorized account; never reveals whether it exists.
    AuthenticationError,
    /// No username bound to the caller's session.
    NoLoginError,
    /// Token refresh and session reset were exhausted.
    TokenError(String),
    /// Malformed track or account identifier in a request.
    ParamsError(String),
    /// Underlying transport fault.
    IOError(String),
    /// Internal invariant violated in a collaborator.
    InnerError(String),
    /// Track cannot be streamed, with the specific reason class.
    AudioError(AudioError),
}

impl ServerError {
    /// HTTP status the server reports for this error: authentication
    /// failures map to 403, malformed request parameters to 400, and
    /// everything else is a server-side failure.
    pub fn status_code(&self) -> (code: u16)
        ensures
            self matches ServerError::AuthenticationError ==> code == 403,
            self matches ServerError::ParamsError(_) ==> code == 400,
            !(self matches ServerError::AuthenticationError) && !(self matches
            ServerError::ParamsError(_)) ==> code == 500,
    {
        match self {
            ServerError::AuthenticationError => 403,
            ServerError::ParamsError(_) => 400,
            _ => 500,
        }
    }
}

} // verus!
