//! Per-account session state: the cached access token, the per-account
//! secret, and the decisions of the refresh / reset lifecycle.
//!
//! Network work — connecting, fetching tokens — happens outside; the
//! caller reports each outcome as a plain value and these functions
//! decide what happens next, so the whole lifecycle is a verified
//! state machine.  The caller serializes the refresh path through the
//! account's refresh lock; `lemma_single_flight_refresh` shows that
//! under that serialization exactly one caller performs the upstream
//! token request.

use vstd::prelude::*;

verus! {

use crate::cipher::{bytes_equal, ctr_xor, mac_tag, spec_ctr_xor, spec_mac};
use crate::errors::ServerError;
use crate::token::{Config, Expiration, Token, MAX_INSTANT_SECONDS, TOKEN_REFRESH_MARGIN_SECONDS};

/// Relies on `rand::random`: a fresh value drawn from the thread-local
/// generator; nothing is promised of which value comes back.
pub assume_specification<T>[ rand::random::<T> ]() -> (r: T)
    where
        rand::distributions::Standard: rand::distributions::Distribution<T>,
;

/// Opaque long-lived login proof, exclusively owned by one account.
#[derive(Debug)]
pub struct Credentials {
    /// The account's canonical username.
    pub username: String,
    /// Numeric tag of the protocol's authentication method.
    pub auth_type: i32,
    /// The reusable authentication blob the protocol handed back.
    pub auth_data: Vec<u8>,
}

/// One logged-in account: its login proof, session configuration,
/// cached token and expiry, a count of session replacements, and the
/// 16-byte secret that signs this account's stream capabilities.
pub struct SpotifyAccount {
    /// Login proof used for every reconnect.
    pub credentials: Credentials,
    /// Configuration handed to the protocol connector.
    pub config: Config,
    /// The cached access token, once one was granted.
    pub token: Option<Token>,
    /// When the cached token was granted and for how long.
    pub expiration: Expiration,
    /// How many times the protocol session was replaced; a reset
    /// publishes a whole new session, never a half-constructed one.
    pub session_generation: u64,
    /// Secret key for this account's stream capabilities; generated at
    /// creation, never serialized or logged.
    pub secret: [u8; 16],
}

/// What the double-checked freshness test decides.
#[derive(Clone, Copy, Debug, PartialEq, Eq, Structural)]
pub enum RefreshDecision {
    /// The token is not expiring; the caller returns at once.
    AlreadyFresh,
    /// The token is expiring; request a new one upstream.
    FetchToken,
}

/// What follows the upstream token request.
#[derive(Clone, Copy, Debug, PartialEq, Eq, Structural)]
pub enum RefreshFollowUp {
    /// A token was granted and published; the refresh is complete.
    Done,
    /// The request failed; the protocol session must be reset.
    ResetSession,
}

/// What follows one reconnect attempt of the session reset loop.
#[derive(Clone, Copy, Debug, PartialEq, Eq, Structural)]
pub enum ResetFollowUp {
    /// The attempt failed or timed out; reconnect again after an idle
    /// wait.
    RetryConnect,
    /// A new session is live; request a token once more.
    FetchTokenOnce,
}

impl SpotifyAccount {
    /// Internal consistency of the recorded expiry.
    pub open spec fn wf(self) -> bool {
        self.expiration.wf()
    }

    /// The account's capability secret as a byte sequence.
    pub open spec fn spec_secret(self) -> Seq<u8> {
        self.secret@
    }

    /// A fresh account around a live session: no token yet (the zero
    /// lifetime counts as expiring immediately), generation zero, and
    /// a secret drawn at random.
    pub fn new(credentials: Credentials, config: Config, now: u64) -> (a: SpotifyAccount)
        requires
            now <= MAX_INSTANT_SECONDS,
        ensures
            a.credentials == credentials,
            a.config == config,
            a.token is None,
            a.expiration == (Expiration { expires_in: 0u64, refreshed_at: now }),
            a.session_generation == 0,
            a.wf(),
            a.spec_secret().len() == 16,
    {
        let secret: [u8; 16] = rand::random();
        SpotifyAccount {
            credentials,
            config,
            token: None,
            expiration: Expiration::new(now),
            session_generation: 0,
            secret,
        }
    }

    /// Whether the cached token is expiring at clock reading `now`.
    pub fn token_expires(&self, now: u64) -> (b: bool)
        requires
            self.wf(),
            now <= MAX_INSTANT_SECONDS,
        ensures
            b == self.expiration.spec_expires(now),
    {
        self.expiration.expires(now)
    }

    /// Publish a freshly granted token atomically: the token and its
    /// expiry change together, nothing else moves.
    pub fn set_token(&mut self, token: Token, now: u64)
        requires
            now <= MAX_INSTANT_SECONDS,
        ensures
            final(self).token == Some(token),
            final(self).expiration == (Expiration {
                expires_in: token.expires_in as u64,
                refreshed_at: now,
            }),
            final(self).credentials == old(self).credentials,
            final(self).config == old(self).config,
            final(self).session_generation == old(self).session_generation,
            final(self).spec_secret() == old(self).spec_secret(),
            final(self).wf(),
    {
        let expires_in = token.expires_in;
        self.token = Some(token);
        self.expiration.update_expires_in(expires_in, now);
    }

    /// The double-checked freshness test, run before and after taking
    /// the refresh lock: a refresh is requested exactly when the token
    /// is expiring at `now`.
    pub fn refresh_decision(&self, now: u64) -> (d: RefreshDecision)
        requires
            self.wf(),
            now <= MAX_INSTANT_SECONDS,
        ensures
            d == (if self.expiration.spec_expires(now) {
                RefreshDecision::FetchToken
            } else {
                RefreshDecision::AlreadyFresh
            }),
    {
        if self.token_expires(now) {
            RefreshDecision::FetchToken
        } else {
            RefreshDecision::AlreadyFresh
        }
    }

    /// Absorb the outcome of the upstream token request: a granted
    /// token is published and the refresh is done; a denial leaves the
    /// account unchanged and demands a session reset.
    pub fn apply_token_result(&mut self, result: Option<Token>, now: u64) -> (f: RefreshFollowUp)
        requires
            old(self).wf(),
            now <= MAX_INSTANT_SECONDS,
        ensures
            result matches Some(t) ==> (f == RefreshFollowUp::Done && final(self).token == Some(t)
                && final(self).expiration == (Expiration {
                expires_in: t.expires_in as u64,
                refreshed_at: now,
            })),
            result is None ==> (f == RefreshFollowUp::ResetSession && *final(self) == *old(self)),
            final(self).credentials == old(self).credentials,
            final(self).config == old(self).config,
            final(self).session_generation == old(self).session_generation,
            final(self).spec_secret() == old(self).spec_secret(),
            final(self).wf(),
    {
        match result {
            Some(token) => {
                self.set_token(token, now);
                RefreshFollowUp::Done
            },
            None => RefreshFollowUp::ResetSession,
        }
    }

    /// Absorb one reconnect attempt of the reset loop: a failure is
    /// retried indefinitely (the caller idles between attempts); a
    /// success publishes the new session — the generation count moves,
    /// so holders of the old handle can tell it was replaced — and the
    /// token is requested once more.
    pub fn apply_reset_result(&mut self, connected: bool) -> (f: ResetFollowUp)
        requires
            old(self).wf(),
            old(self).session_generation < u64::MAX,
        ensures
            !connected ==> (f == ResetFollowUp::RetryConnect && *final(self) == *old(self)),
            connected ==> (f == ResetFollowUp::FetchTokenOnce && final(self).session_generation
                == old(self).session_generation + 1),
            final(self).credentials == old(self).credentials,
            final(self).config == old(self).config,
            final(self).token == old(self).token,
            final(self).expiration == old(self).expiration,
            final(self).spec_secret() == old(self).spec_secret(),
            final(self).wf(),
    {
        if connected {
            self.session_generation = self.session_generation + 1;
            ResetFollowUp::FetchTokenOnce
        } else {
            ResetFollowUp::RetryConnect
        }
    }

    /// Absorb the single token request made after a successful reset:
    /// a grant is published; a denial is tolerated — the token stays
    /// stale and the caller's bounded outer retry decides what next.
    pub fn apply_post_reset_token(&mut self, result: Option<Token>, now: u64)
        requires
            old(self).wf(),
            now <= MAX_INSTANT_SECONDS,
        ensures
            result matches Some(t) ==> (final(self).token == Some(t) && final(self).expiration
                == (Expiration { expires_in: t.expires_in as u64, refreshed_at: now })),
            result is None ==> *final(self) == *old(self),
            final(self).credentials == old(self).credentials,
            final(self).config == old(self).config,
            final(self).session_generation == old(self).session_generation,
            final(self).spec_secret() == old(self).spec_secret(),
            final(self).wf(),
    {
        match result {
            Some(token) => {
                self.set_token(token, now);
            },
            None => {},
        }
    }

    /// Encrypt a capability payload under this account's secret with a
    /// fresh random 16-byte IV, returned beside the ciphertext.  The
    /// ciphertext carries the payload's counter-mode transform followed
    /// by the keyed 16-byte integrity tag `decrypt` checks.
    pub fn encrypt(&self, buf: &[u8]) -> (r: (Vec<u8>, [u8; 16]))
        requires
            self.spec_secret().len() == 16,
        ensures
            r.1@.len() == 16,
            r.0@ == spec_ctr_xor(self.spec_secret(), r.1@, buf@) + spec_mac(
                self.spec_secret(),
                r.1@,
                spec_ctr_xor(self.spec_secret(), r.1@, buf@),
            ),
            r.0@.len() == buf@.len() + 16,
    {
        let iv: [u8; 16] = rand::random();
        let mut enc = ctr_xor(self.secret.as_slice(), iv.as_slice(), buf);
        let mut tag = mac_tag(self.secret.as_slice(), iv.as_slice(), enc.as_slice());
        enc.append(&mut tag);
        (enc, iv)
    }

    /// Decrypt a capability payload under this account's secret:
    /// succeeds exactly when the IV has 16 bytes and the ciphertext
    /// ends in the integrity tag this secret gives its body — so a
    /// ciphertext produced under a different account's secret is
    /// rejected, with one generic failure for every rejection.
    pub fn decrypt(&self, iv: &[u8], buf: &[u8]) -> (r: Result<Vec<u8>, ServerError>)
        requires
            self.spec_secret().len() == 16,
        ensures
            r is Ok <==> (iv@.len() == 16 && buf@.len() >= 16 && buf@.skip(buf@.len() - 16)
                == spec_mac(self.spec_secret(), iv@, buf@.take(buf@.len() - 16))),
            r matches Ok(v) ==> v@ == spec_ctr_xor(
                self.spec_secret(),
                iv@,
                buf@.take(buf@.len() - 16),
            ),
            r matches Err(e) ==> e matches ServerError::InnerError(_),
    {
        if iv.len() != 16 || buf.len() < 16 {
            return Err(ServerError::InnerError(String::from_str("decryption failed")));
        }
        let (body, tag) = buf.split_at(buf.len() - 16);
        let expected = mac_tag(self.secret.as_slice(), iv, body);
        if !bytes_equal(tag, expected.as_slice()) {
            return Err(ServerError::InnerError(String::from_str("decryption failed")));
        }
        Ok(ctr_xor(self.secret.as_slice(), iv, body))
    }
}

/// Ghost model of the refresh critical section run serially: callers
/// enter one at a time (the refresh lock admits one at a time); each
/// re-checks expiry and, only if the token is still expiring, performs
/// the upstream request and publishes a grant of `granted` seconds.
/// Returns the final expiry state and how many upstream requests ran.
pub open spec fn spec_serialized_refresh(exp: Expiration, times: Seq<u64>, granted: u32) -> (
    Expiration,
    nat,
)
    decreases times.len(),
{
    if times.len() == 0 {
        (exp, 0)
    } else {
        let t = times[0];
        if exp.spec_expires(t) {
            let refreshed = Expiration { expires_in: granted as u64, refreshed_at: t };
            let rest = spec_serialized_refresh(refreshed, times.drop_first(), granted);
            (rest.0, rest.1 + 1)
        } else {
            spec_serialized_refresh(exp, times.drop_first(), granted)
        }
    }
}

proof fn lemma_serialized_no_refetch(exp: Expiration, times: Seq<u64>, granted: u32)
    requires
        forall|i: int| 0 <= i < times.len() ==> !exp.spec_expires(#[trigger] times[i]),
    ensures
        spec_serialized_refresh(exp, times, granted) == (exp, 0nat),
    decreases times.len(),
{
    if times.len() > 0 {
        lemma_serialized_no_refetch(exp, times.drop_first(), granted);
    }
}

/// Single-flight refresh: with callers serialized by the refresh lock,
/// if the token is expiring when the first caller enters, and every
/// caller enters before the freshly granted token itself nears expiry
/// (their clock readings stay more than the margin short of the new
/// grant's end), then exactly one upstream token request is performed;
/// the double-checked test turns every other caller into a no-op.
pub proof fn lemma_single_flight_refresh(exp: Expiration, times: Seq<u64>, granted: u32)
    requires
        times.len() > 0,
        exp.spec_expires(times[0]),
        forall|i: int|
            0 <= i < times.len() ==> #[trigger] times[i] + TOKEN_REFRESH_MARGIN_SECONDS < times[0]
                + granted,
    ensures
        spec_serialized_refresh(exp, times, granted).1 == 1,
{
    let refreshed = Expiration { expires_in: granted as u64, refreshed_at: times[0] };
    assert forall|i: int|
        0 <= i < times.drop_first().len() implies !refreshed.spec_expires(
        #[trigger] times.drop_first()[i],
    ) by {
        assert(times.drop_first()[i] == times[i + 1]);
    }
    lemma_serialized_no_refetch(refreshed, times.drop_first(), granted);
}

} // verus!
