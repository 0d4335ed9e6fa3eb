//! Cached access token and its expiry bookkeeping.
//!
//! Clock readings are passed in as plain seconds so the freshness rule
//! is a pure function of the recorded state and the caller's `now`.

use vstd::prelude::*;

verus! {

/// Access token granted by the protocol session, as the catalog client
/// consumes it.
#[derive(Clone, Debug)]
pub struct Token {
    pub access_token: String,
    pub expires_in: u32,
    pub token_type: String,
    pub scope: Vec<String>,
}

/// Plain session configuration handed to the protocol connector.
#[derive(Clone, Debug)]
pub struct Config {
    pub user_agent: String,
    pub device_id: String,
    pub proxy: Option<String>,
    pub ap_port: Option<u16>,
}

/// Lead time before hard expiry at which a token is renewed, so renewal
/// tolerates upstream latency.
pub const TOKEN_REFRESH_MARGIN_SECONDS: u64 = 600;

/// Upper bound on clock readings accepted by the core, so expiry
/// arithmetic stays well inside `u64`.
pub const MAX_INSTANT_SECONDS: u64 = 0x1000_0000_0000;

/// When the cached token was granted and for how long it lasts.
#[derive(Clone, Copy, Debug, PartialEq, Eq, Structural)]
pub struct Expiration {
    /// Lifetime in seconds the grant announced.
    pub expires_in: u64,
    /// Clock reading, in seconds, at which the grant was recorded.
    pub refreshed_at: u64,
}

impl Expiration {
    pub open spec fn wf(self) -> bool {
        self.refreshed_at <= MAX_INSTANT_SECONDS && self.expires_in <= u32::MAX
    }

    /// The token counts as expiring once `now` is within the margin of
    /// the announced lifetime's end.
    pub open spec fn spec_expires(self, now: u64) -> bool {
        now + TOKEN_REFRESH_MARGIN_SECONDS >= self.refreshed_at + self.expires_in
    }

    /// State recorded before any grant: a zero lifetime, which counts
    /// as expiring at every later instant.
    pub fn new(now: u64) -> (e: Expiration)
        requires
            now <= MAX_INSTANT_SECONDS,
        ensures
            e == (Expiration { expires_in: 0u64, refreshed_at: now }),
            e.wf(),
    {
        Expiration { expires_in: 0, refreshed_at: now }
    }

    /// Record a fresh grant of `seconds` at clock reading `now`.
    pub fn update_expires_in(&mut self, seconds: u32, now: u64)
        requires
            now <= MAX_INSTANT_SECONDS,
        ensures
            *final(self) == (Expiration { expires_in: seconds as u64, refreshed_at: now }),
            final(self).wf(),
    {
        self.expires_in = seconds as u64;
        self.refreshed_at = now;
    }

    /// Whether the recorded grant is expiring at clock reading `now`:
    /// true exactly when `now + margin` has reached the end of the
    /// announced lifetime.
    pub fn expires(&self, now: u64) -> (b: bool)
        requires
            self.wf(),
            now <= MAX_INSTANT_SECONDS,
        ensures
            b == self.spec_expires(now),
    {
        now + TOKEN_REFRESH_MARGIN_SECONDS >= self.refreshed_at + self.expires_in
    }
}

/// Freshness is a pure threshold: a check is a no-op (not expiring)
/// exactly while `now < refreshed_at + expires_in - margin`, and
/// demands a refresh from that instant on.
pub proof fn lemma_expiry_threshold(e: Expiration, now: u64)
    ensures
        e.spec_expires(now) <==> now >= e.refreshed_at + e.expires_in
            - TOKEN_REFRESH_MARGIN_SECONDS,
{
}

/// A grant whose lifetime exceeds the margin is reused, not refreshed,
/// at every instant before the threshold: authorization right after a
/// login, and at every check until the new token itself nears expiry,
/// performs no upstream request.
pub proof fn lemma_grant_reuse_window(e: Expiration, now: u64)
    requires
        e.expires_in > TOKEN_REFRESH_MARGIN_SECONDS,
        now < e.refreshed_at + e.expires_in - TOKEN_REFRESH_MARGIN_SECONDS,
    ensures
        !e.spec_expires(now),
{
}

} // verus!
