use spotify_web_server::account::{Credentials, SpotifyAccount};
use spotify_web_server::errors::{AudioError, ServerError};
use spotify_web_server::hex;
use spotify_web_server::params::{IdsData, LoginData};
use spotify_web_server::registry::{AppStore, SpotifyAccounts, UserName};
use spotify_web_server::retry::{AttemptOutcome, RetryPolicy};
use spotify_web_server::token::Config;

fn account(name: &str, now: u64) -> SpotifyAccount {
    SpotifyAccount::new(
        Credentials {
            username: String::from(name),
            auth_type: 0,
            auth_data: vec![],
        },
        Config {
            user_agent: String::from("agent"),
            device_id: String::from("device"),
            proxy: None,
            ap_port: None,
        },
        now,
    )
}

#[test]
fn hex_encode_uses_upper_case_pairs() {
    assert_eq!(hex::encode(&[]), "");
    assert_eq!(hex::encode(&[0x00, 0xab, 0x0f]), "00AB0F");
}

#[test]
fn hex_decode_inverts_encode() {
    let bytes: Vec<u8> = (0..=255u8).collect();
    let s = hex::encode(&bytes);
    assert_eq!(hex::decode(&s).unwrap(), bytes);
    // Lower-case digits decode too.
    assert_eq!(hex::decode("ab0f").unwrap(), vec![0xab, 0x0f]);
}

#[test]
fn hex_decode_rejects_odd_length_only() {
    assert!(matches!(hex::decode("ABC"), Err(ServerError::ParamsError(_))));
    // Invalid digits count as zero rather than failing.
    assert_eq!(hex::decode("ZZ").unwrap(), vec![0x00]);
}

#[test]
fn registry_insert_replaces_never_merges() {
    let mut accounts = SpotifyAccounts::new();
    assert_eq!(accounts.len(), 0);
    let alice = UserName::new("alice");
    assert!(!accounts.contains_key(&alice));
    let mut first = account("alice", 10);
    first.session_generation = 7;
    accounts.insert(UserName::new("alice"), first);
    accounts.insert(UserName::new("bob"), account("bob", 11));
    assert_eq!(accounts.len(), 2);
    assert!(accounts.contains_key(&alice));
    assert_eq!(accounts.get(&alice).unwrap().session_generation, 7);
    // Re-inserting alice replaces her entry and keeps the count.
    accounts.insert(UserName::new("alice"), account("alice", 12));
    assert_eq!(accounts.len(), 2);
    assert_eq!(accounts.get(&alice).unwrap().session_generation, 0);
    let keys: Vec<String> = accounts
        .keys()
        .iter()
        .map(|k| String::from(k.as_str()))
        .collect();
    assert_eq!(keys, vec![String::from("alice"), String::from("bob")]);
}

#[test]
fn cookie_login_honours_only_logged_in_names() {
    let mut store = AppStore::new("client-id");
    // Empty registry: no name can be bound.
    assert!(matches!(
        store.pick_login_username(None),
        Err(ServerError::NoLoginError)
    ));
    store.insert_account(UserName::new("alice"), account("alice", 10));
    let alice = UserName::new("alice");
    let bob = UserName::new("bob");
    assert_eq!(store.pick_login_username(Some(&alice)).unwrap().as_str(), "alice");
    assert!(matches!(
        store.pick_login_username(Some(&bob)),
        Err(ServerError::NoLoginError)
    ));
    assert_eq!(store.pick_login_username(None).unwrap().as_str(), "alice");
}

#[test]
fn status_codes_distinguish_failure_classes() {
    assert_eq!(ServerError::AuthenticationError.status_code(), 403);
    assert_eq!(
        ServerError::ParamsError(String::from("bad id")).status_code(),
        400
    );
    assert_eq!(ServerError::NoLoginError.status_code(), 500);
    assert_eq!(ServerError::AudioError(AudioError::Unplayable).status_code(), 500);
}

#[test]
fn login_cache_flag_is_exactly_one() {
    let mk = |cache| LoginData {
        username: String::from("u"),
        password: String::from("p"),
        cache,
    };
    assert!(mk(Some(1)).use_cache());
    assert!(!mk(Some(0)).use_cache());
    assert!(!mk(Some(2)).use_cache());
    assert!(!mk(None).use_cache());
}

#[test]
fn ids_split_on_commas() {
    let ids = IdsData {
        ids: String::from("a,bc,,d"),
    };
    assert_eq!(ids.ids(), vec!["a", "bc", "", "d"]);
    let one = IdsData {
        ids: String::from("only"),
    };
    assert_eq!(one.ids(), vec!["only"]);
    let empty = IdsData {
        ids: String::new(),
    };
    assert_eq!(empty.ids(), vec![""]);
    let trailing = IdsData {
        ids: String::from("a,"),
    };
    assert_eq!(trailing.ids(), vec!["a", ""]);
}

#[test]
fn retry_policy_retries_timeouts_while_attempts_remain() {
    let policy = RetryPolicy::for_token_refresh();
    assert_eq!(policy.max_attempts, 3);
    assert!(policy.should_retry(0, AttemptOutcome::TimedOut));
    assert!(policy.should_retry(1, AttemptOutcome::TimedOut));
    assert!(!policy.should_retry(2, AttemptOutcome::TimedOut));
    // A completed attempt stands, whatever its result was.
    assert!(!policy.should_retry(0, AttemptOutcome::Completed));
    let audio = RetryPolicy::for_audio_stream();
    assert_eq!(audio.max_attempts, 3);
    assert_eq!(audio.per_attempt_timeout_ms, 3_000);
}
