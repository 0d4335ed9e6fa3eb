//! The bounded retry policy wrapped around token refresh, session
//! reset and stream opening at the request boundary, so persistent
//! upstream failure surfaces as an error instead of a hanging request.

use vstd::prelude::*;

verus! {

use crate::errors::ServerError;

/// Attempts made for a token refresh at one request.
pub const TOKEN_REFRESH_ATTEMPTS: u32 = 3;

/// Deadline for one token-refresh attempt, in milliseconds.
pub const TOKEN_REFRESH_TIMEOUT_MILLIS: u64 = 10000;

/// Deadline for one reconnect attempt of the session reset loop, in
/// seconds; the loop itself retries without bound.
pub const SESSION_CONNECT_TIMEOUT_SECONDS: u64 = 5;

/// Attempts made to open one audio stream.
pub const AUDIO_STREAM_ATTEMPTS: u32 = 3;

/// Deadline for one audio-stream opening attempt, in milliseconds.
pub const AUDIO_STREAM_TIMEOUT_MILLIS: u64 = 3000;

/// How one deadline-bound attempt ended.
#[derive(Clone, Copy, Debug, PartialEq, Eq, Structural)]
pub enum AttemptOutcome {
    /// The attempt ran to completion (successfully or not) within its
    /// deadline; its result stands.
    Completed,
    /// The attempt missed its deadline.
    TimedOut,
}

/// A bounded retry: a fixed attempt count, each attempt bounded by a
/// timeout, with an idle wait between attempts.
#[derive(Clone, Copy, Debug, PartialEq, Eq, Structural)]
pub struct RetryPolicy {
    /// How many attempts are made before giving up.
    pub max_attempts: u32,
    /// Deadline of one attempt, in milliseconds.
    pub per_attempt_timeout_ms: u64,
    /// Idle wait between attempts, in milliseconds.
    pub backoff_ms: u64,
}

impl RetryPolicy {
    /// The policy wrapped around a token refresh.
    pub fn for_token_refresh() -> (p: RetryPolicy)
        ensures
            p == (RetryPolicy {
                max_attempts: TOKEN_REFRESH_ATTEMPTS,
                per_attempt_timeout_ms: TOKEN_REFRESH_TIMEOUT_MILLIS,
                backoff_ms: 0u64,
            }),
    {
        RetryPolicy {
            max_attempts: TOKEN_REFRESH_ATTEMPTS,
            per_attempt_timeout_ms: TOKEN_REFRESH_TIMEOUT_MILLIS,
            backoff_ms: 0,
        }
    }

    /// The policy wrapped around opening an audio stream.
    pub fn for_audio_stream() -> (p: RetryPolicy)
        ensures
            p == (RetryPolicy {
                max_attempts: AUDIO_STREAM_ATTEMPTS,
                per_attempt_timeout_ms: AUDIO_STREAM_TIMEOUT_MILLIS,
                backoff_ms: 0u64,
            }),
    {
        RetryPolicy {
            max_attempts: AUDIO_STREAM_ATTEMPTS,
            per_attempt_timeout_ms: AUDIO_STREAM_TIMEOUT_MILLIS,
            backoff_ms: 0,
        }
    }

    /// Whether attempt number `attempt` (counted from zero) is retried
    /// after `outcome`: a completed attempt never is — its result is
    /// returned as it stands — and a timed-out one is retried exactly
    /// while attempts remain.
    pub fn should_retry(&self, attempt: u32, outcome: AttemptOutcome) -> (b: bool)
        ensures
            b == (outcome matches AttemptOutcome::TimedOut && attempt + 1 < self.max_attempts),
    {
        match outcome {
            AttemptOutcome::Completed => false,
            AttemptOutcome::TimedOut => attempt < u32::MAX && attempt + 1 < self.max_attempts,
        }
    }

}

/// The error surfaced when every token-refresh attempt missed its
/// deadline: refresh and reset are exhausted for this request.
pub fn token_refresh_exhausted_error() -> (e: ServerError)
    ensures
        e matches ServerError::TokenError(_),
{
    ServerError::TokenError(String::from_str("failed to update token: attempts exhausted"))
}

/// The error surfaced when every stream-opening attempt missed its
/// deadline.
pub fn audio_retry_exhausted_error() -> (e: ServerError)
    ensures
        e == ServerError::AudioError(crate::errors::AudioError::ReadFailure),
{
    ServerError::AudioError(crate::errors::AudioError::ReadFailure)
}

} // verus!
