use spotify_web_server::account::{
    Credentials, RefreshDecision, RefreshFollowUp, ResetFollowUp, SpotifyAccount,
};
use spotify_web_server::registry::{AppStore, Authorization, UserName};
use spotify_web_server::token::{Config, Expiration, Token, TOKEN_REFRESH_MARGIN_SECONDS};

fn test_config() -> Config {
    Config {
        user_agent: String::from("agent"),
        device_id: String::from("device"),
        proxy: None,
        ap_port: None,
    }
}

fn test_credentials(name: &str) -> Credentials {
    Credentials {
        username: String::from(name),
        auth_type: 0,
        auth_data: vec![1, 2, 3],
    }
}

fn test_token(expires_in: u32) -> Token {
    Token {
        access_token: String::from("access-token-value"),
        expires_in,
        token_type: String::from("Bearer"),
        scope: vec![String::from("user-read-private")],
    }
}

#[test]
fn expiry_is_a_pure_threshold() {
    // A token granted at 1_000 for 3_600 seconds with a 600-second
    // margin is fresh strictly before 1_000 + 3_600 - 600 = 4_000.
    let e = Expiration {
        expires_in: 3_600,
        refreshed_at: 1_000,
    };
    assert_eq!(TOKEN_REFRESH_MARGIN_SECONDS, 600);
    assert!(!e.expires(1_000));
    assert!(!e.expires(3_999));
    assert!(e.expires(4_000));
    assert!(e.expires(10_000));
}

#[test]
fn fresh_account_has_expiring_zero_token() {
    let account = SpotifyAccount::new(test_credentials("alice"), test_config(), 50);
    assert!(account.token.is_none());
    assert_eq!(account.session_generation, 0);
    // The zero lifetime counts as expiring immediately.
    assert!(account.token_expires(50));
}

#[test]
fn set_token_publishes_token_and_expiry_together() {
    let mut account = SpotifyAccount::new(test_credentials("alice"), test_config(), 50);
    account.set_token(test_token(3_600), 100);
    assert!(!account.token_expires(100));
    assert!(!account.token_expires(100 + 3_600 - 600 - 1));
    assert!(account.token_expires(100 + 3_600 - 600));
    assert_eq!(account.token.as_ref().unwrap().expires_in, 3_600);
}

#[test]
fn single_flight_second_caller_is_a_no_op() {
    // Two callers race an expiring token; the refresh lock serializes
    // them.  The first fetches and publishes; the second re-checks
    // under the lock and leaves without an upstream request.
    let mut account = SpotifyAccount::new(test_credentials("alice"), test_config(), 50);
    let now = 500;
    assert_eq!(account.refresh_decision(now), RefreshDecision::FetchToken);
    let follow = account.apply_token_result(Some(test_token(3_600)), now);
    assert_eq!(follow, RefreshFollowUp::Done);
    // The second caller enters the critical section moments later.
    assert_eq!(account.refresh_decision(now + 1), RefreshDecision::AlreadyFresh);
}

#[test]
fn denied_token_demands_session_reset_then_one_fetch() {
    let mut account = SpotifyAccount::new(test_credentials("alice"), test_config(), 50);
    assert_eq!(
        account.apply_token_result(None, 60),
        RefreshFollowUp::ResetSession
    );
    // Reconnect fails twice, then succeeds; each failure is retried.
    assert_eq!(account.apply_reset_result(false), ResetFollowUp::RetryConnect);
    assert_eq!(account.apply_reset_result(false), ResetFollowUp::RetryConnect);
    assert_eq!(account.session_generation, 0);
    assert_eq!(account.apply_reset_result(true), ResetFollowUp::FetchTokenOnce);
    assert_eq!(account.session_generation, 1);
    // The post-reset token request succeeds and is published.
    account.apply_post_reset_token(Some(test_token(1_800)), 70);
    assert!(!account.token_expires(70));
}

#[test]
fn post_reset_denial_leaves_token_stale() {
    let mut account = SpotifyAccount::new(test_credentials("alice"), test_config(), 50);
    account.apply_post_reset_token(None, 70);
    assert!(account.token.is_none());
    assert!(account.token_expires(70));
}

#[test]
fn login_then_authorize_end_to_end() {
    // Login creates an account whose token is granted immediately; the
    // next authorize succeeds without a refresh; once the clock passes
    // expires_in - margin, authorize demands exactly one refresh, and
    // later calls reuse the new token until it too nears expiry.
    let mut store = AppStore::new("client-id");
    let mut account = SpotifyAccount::new(test_credentials("alice"), test_config(), 1_000);
    account.set_token(test_token(3_600), 1_000);
    store.insert_account(UserName::new("alice"), account);

    let alice = UserName::new("alice");
    assert!(matches!(store.authorize(&alice, 1_001), Ok(Authorization::Ready)));
    assert!(matches!(store.authorize(&alice, 3_999), Ok(Authorization::Ready)));
    assert!(matches!(
        store.authorize(&alice, 4_000),
        Ok(Authorization::RefreshNeeded)
    ));

    // The refresh path runs once, serialized by the refresh lock.
    let mut refreshed = SpotifyAccount::new(test_credentials("alice"), test_config(), 1_000);
    assert_eq!(refreshed.refresh_decision(4_000), RefreshDecision::FetchToken);
    assert_eq!(
        refreshed.apply_token_result(Some(test_token(3_600)), 4_000),
        RefreshFollowUp::Done
    );
    // A second racer finds the token fresh: no second upstream call.
    assert_eq!(refreshed.refresh_decision(4_001), RefreshDecision::AlreadyFresh);
    store.insert_account(UserName::new("alice"), refreshed);

    assert!(matches!(store.authorize(&alice, 4_001), Ok(Authorization::Ready)));
    assert!(matches!(store.authorize(&alice, 6_999), Ok(Authorization::Ready)));
    assert!(matches!(
        store.authorize(&alice, 7_000),
        Ok(Authorization::RefreshNeeded)
    ));
    // An unknown account is rejected, never silently created.
    let mallory = UserName::new("mallory");
    assert!(store.authorize(&mallory, 4_001).is_err());
}
