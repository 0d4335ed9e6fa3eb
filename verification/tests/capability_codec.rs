use spotify_web_server::account::{Credentials, SpotifyAccount};
use spotify_web_server::capability::{audio_sign_url, parse_payload, render_payload, verify_capability};
use spotify_web_server::errors::ServerError;
use spotify_web_server::hex;
use spotify_web_server::token::{Config, Expiration};

fn account_with_secret(name: &str, secret: [u8; 16]) -> SpotifyAccount {
    SpotifyAccount {
        credentials: Credentials {
            username: String::from(name),
            auth_type: 0,
            auth_data: vec![],
        },
        config: Config {
            user_agent: String::from("agent"),
            device_id: String::from("device"),
            proxy: None,
            ap_port: None,
        },
        token: None,
        expiration: Expiration {
            expires_in: 0,
            refreshed_at: 0,
        },
        session_generation: 0,
        secret,
    }
}

#[test]
fn encrypt_decrypt_round_trips_many_lengths() {
    let account = account_with_secret("alice", [7; 16]);
    for len in [1usize, 2, 15, 16, 17, 1_000, 10_000] {
        let payload: Vec<u8> = (0..len).map(|i| (i % 251) as u8).collect();
        let (cipher, iv) = account.encrypt(&payload);
        // The ciphertext is the transformed payload plus its 16-byte
        // integrity tag.
        assert_eq!(cipher.len(), payload.len() + 16);
        assert_ne!(&cipher[..payload.len()], &payload[..]);
        let back = account.decrypt(&iv, &cipher).unwrap();
        assert_eq!(back, payload);
    }
}

#[test]
fn decrypt_rejects_bad_iv_length() {
    let account = account_with_secret("alice", [7; 16]);
    let r = account.decrypt(&[0u8; 15], &[1; 32]);
    assert!(matches!(r, Err(ServerError::InnerError(_))));
    // A ciphertext too short to carry the tag is rejected too.
    let r = account.decrypt(&[0u8; 16], &[1, 2, 3]);
    assert!(matches!(r, Err(ServerError::InnerError(_))));
}

#[test]
fn decrypt_rejects_wrong_secret_and_tampering() {
    let alice = account_with_secret("alice", [7; 16]);
    let mallory = account_with_secret("mallory", [9; 16]);
    let payload = b"any bytes at all".to_vec();
    let (cipher, iv) = alice.encrypt(&payload);
    // Decryption itself fails under another account's secret, and the
    // same inputs fail the same way every time.
    let first = mallory.decrypt(&iv, &cipher);
    let second = mallory.decrypt(&iv, &cipher);
    assert!(matches!(&first, Err(ServerError::InnerError(_))));
    assert_eq!(
        format!("{:?}", first.err().unwrap()),
        format!("{:?}", second.err().unwrap())
    );
    // A single flipped ciphertext byte fails the integrity check.
    let mut tampered = cipher.clone();
    tampered[0] ^= 1;
    assert!(alice.decrypt(&iv, &tampered).is_err());
    // A different IV fails it as well.
    let mut other_iv = iv;
    other_iv[3] ^= 0x10;
    assert!(alice.decrypt(&other_iv, &cipher).is_err());
    // The untouched ciphertext still decrypts.
    assert_eq!(alice.decrypt(&iv, &cipher).unwrap(), payload);
}

#[test]
fn wrong_secret_fails_deterministically() {
    let alice = account_with_secret("alice", [7; 16]);
    let mallory = account_with_secret("mallory", [9; 16]);
    let payload = render_payload(b"alice", b"0aAbBcCdDeEfFgGhH12345").unwrap();
    let (cipher, iv) = alice.encrypt(&payload);
    let sign_hex = hex::encode(&cipher);
    let iv_hex = hex::encode(&iv);
    // Under the right account the capability verifies.
    let ok = verify_capability(&alice, &sign_hex, &iv_hex).unwrap();
    assert_eq!(ok.0, b"alice".to_vec());
    assert_eq!(ok.1, b"0aAbBcCdDeEfFgGhH12345".to_vec());
    // Under another account's secret decryption rejects the ciphertext
    // outright, and the rejection is the same every time.
    let first = verify_capability(&mallory, &sign_hex, &iv_hex);
    let second = verify_capability(&mallory, &sign_hex, &iv_hex);
    assert!(matches!(&first, Err(ServerError::ParamsError(_))));
    assert_eq!(
        format!("{:?}", first.err().unwrap()),
        format!("{:?}", second.err().unwrap())
    );
}

#[test]
fn payload_grammar_round_trips() {
    let bytes = render_payload(b"alice", b"track123").unwrap();
    assert_eq!(bytes, b"{\"username\":\"alice\",\"track_id\":\"track123\"}".to_vec());
    let (u, t) = parse_payload(&bytes).unwrap();
    assert_eq!(u, b"alice".to_vec());
    assert_eq!(t, b"track123".to_vec());
}

#[test]
fn payload_grammar_escapes_quotes_and_backslashes() {
    let bytes = render_payload(b"a\"b\\c", b"t").unwrap();
    assert_eq!(bytes, b"{\"username\":\"a\\\"b\\\\c\",\"track_id\":\"t\"}".to_vec());
    let (u, t) = parse_payload(&bytes).unwrap();
    assert_eq!(u, b"a\"b\\c".to_vec());
    assert_eq!(t, b"t".to_vec());
}

#[test]
fn payload_grammar_rejects_control_bytes_and_junk() {
    assert!(matches!(
        render_payload(b"a\nb", b"t"),
        Err(ServerError::ParamsError(_))
    ));
    assert!(matches!(
        render_payload(b"a", b"t\x01"),
        Err(ServerError::ParamsError(_))
    ));
    assert!(matches!(
        parse_payload(b"{\"user\":\"a\"}"),
        Err(ServerError::AuthenticationError)
    ));
    assert!(matches!(
        parse_payload(b"{\"username\":\"a\",\"track_id\":\"t\"} "),
        Err(ServerError::AuthenticationError)
    ));
    assert!(matches!(
        parse_payload(b""),
        Err(ServerError::AuthenticationError)
    ));
}

#[test]
fn sign_url_carries_hex_sign_iv_and_encoded_username() {
    let account = account_with_secret("al ice", [3; 16]);
    let url = audio_sign_url(&account, "al ice", "0aAbBcCdDeEfFgGhH12345").unwrap();
    assert!(url.starts_with("/audio-stream-with-sign/audio.ogg?sign="));
    // The username query value is percent-encoded: the space is %20.
    assert!(url.ends_with("&username=al%20ice"));
    // The sign and IV decode back and verify as a capability.
    let rest = url.strip_prefix("/audio-stream-with-sign/audio.ogg?sign=").unwrap();
    let (sign_hex, rest) = rest.split_once("&iv=").unwrap();
    let (iv_hex, _) = rest.split_once("&username=").unwrap();
    let (u, t) = verify_capability(&account, sign_hex, iv_hex).unwrap();
    assert_eq!(u, b"al ice".to_vec());
    assert_eq!(t, b"0aAbBcCdDeEfFgGhH12345".to_vec());
}

#[test]
fn sign_url_rejects_control_characters() {
    let account = account_with_secret("alice", [3; 16]);
    assert!(matches!(
        audio_sign_url(&account, "a\nb", "t"),
        Err(ServerError::ParamsError(_))
    ));
}

#[test]
fn verify_capability_rejects_malformed_hex() {
    let account = account_with_secret("alice", [3; 16]);
    // Odd-length hex values are parameter errors.
    assert!(matches!(
        verify_capability(&account, "ABC", "00112233445566778899AABBCCDDEEFF"),
        Err(ServerError::ParamsError(_))
    ));
    // An IV that does not decode to 16 bytes is a parameter error.
    assert!(matches!(
        verify_capability(&account, "ABCD", "0011"),
        Err(ServerError::ParamsError(_))
    ));
}
