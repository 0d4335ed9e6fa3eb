//! The signed stream capability: the `{username, track_id}` payload
//! grammar, its encryption under the account secret, the capability
//! URL handed to the client, and the checks run when it comes back.
//!
//! The payload is rendered as exact JSON bytes with `"` and `\`
//! escaped; parsing is proved to invert rendering, and decryption to
//! invert encryption, so a capability minted here is accepted here.

use vstd::prelude::*;

verus! {

use crate::account::SpotifyAccount;
use crate::cipher::{lemma_ctr_xor_involution, spec_ctr_xor, spec_mac};
use crate::errors::ServerError;
use crate::hex;
use vstd::string::StringSliceAdditionalSpecFns;

/// Bytes allowed in a username or track id: no control characters,
/// so the rendered payload needs only the two JSON escapes.
pub open spec fn spec_text_ok(s: Seq<u8>) -> bool {
    forall|i: int| 0 <= i < s.len() ==> s[i] >= 32
}

/// How one byte is written inside a JSON string: `"` and `\` get a
/// backslash, everything else stands as itself.
pub open spec fn spec_esc_byte(b: u8) -> Seq<u8> {
    if b == 34 || b == 92 {
        seq![92u8, b]
    } else {
        seq![b]
    }
}

/// A byte sequence written inside a JSON string.
pub open spec fn spec_escape(s: Seq<u8>) -> Seq<u8>
    decreases s.len(),
{
    if s.len() == 0 {
        Seq::empty()
    } else {
        spec_esc_byte(s[0]) + spec_escape(s.drop_first())
    }
}

/// The bytes `{"username":"`.
pub open spec fn spec_payload_prefix() -> Seq<u8> {
    seq![123u8, 34u8, 117u8, 115u8, 101u8, 114u8, 110u8, 97u8, 109u8, 101u8, 34u8, 58u8, 34u8]
}

/// The bytes `","track_id":"`.
pub open spec fn spec_payload_mid() -> Seq<u8> {
    seq![34u8, 44u8, 34u8, 116u8, 114u8, 97u8, 99u8, 107u8, 95u8, 105u8, 100u8, 34u8, 58u8, 34u8]
}

/// The bytes `"}`.
pub open spec fn spec_payload_suffix() -> Seq<u8> {
    seq![34u8, 125u8]
}

/// The capability payload for a username and track id, as the exact
/// JSON bytes `{"username":"<u>","track_id":"<t>"}`.
pub open spec fn spec_payload(u: Seq<u8>, t: Seq<u8>) -> Seq<u8> {
    spec_payload_prefix() + spec_escape(u) + spec_payload_mid() + spec_escape(t)
        + spec_payload_suffix()
}

/// Read a JSON string body from the front of `s`: the decoded bytes
/// and the index of the unescaped closing quote.  Fails on a control
/// character, a bad escape, or a missing closing quote.
pub open spec fn spec_unescape_prefix(s: Seq<u8>) -> Option<(Seq<u8>, int)>
    decreases s.len(),
{
    if s.len() == 0 {
        None
    } else if s[0] == 34 {
        Some((Seq::empty(), 0))
    } else if s[0] == 92 {
        if s.len() >= 2 && (s[1] == 34 || s[1] == 92) {
            match spec_unescape_prefix(s.skip(2)) {
                Some(p) => Some((seq![s[1]] + p.0, p.1 + 2)),
                None => None,
            }
        } else {
            None
        }
    } else if s[0] < 32 {
        None
    } else {
        match spec_unescape_prefix(s.skip(1)) {
            Some(p) => Some((seq![s[0]] + p.0, p.1 + 1)),
            None => None,
        }
    }
}

/// What a successful string read guarantees: the decoded value is
/// control-free, the consumed bytes are exactly its escaped form, and
/// the reported index holds the closing quote.
pub proof fn lemma_unescape_sound(s: Seq<u8>)
    requires
        spec_unescape_prefix(s) is Some,
    ensures
        ({
            let p = spec_unescape_prefix(s)->0;
            &&& 0 <= p.1 < s.len()
            &&& s[p.1] == 34
            &&& s.subrange(0, p.1) =~= spec_escape(p.0)
            &&& spec_text_ok(p.0)
        }),
    decreases s.len(),
{
    let p = spec_unescape_prefix(s)->0;
    if s[0] == 34 {
    } else if s[0] == 92 {
        lemma_unescape_sound(s.skip(2));
        let q = spec_unescape_prefix(s.skip(2))->0;
        assert(s.subrange(0, p.1) =~= seq![92u8, s[1]] + s.skip(2).subrange(0, q.1));
        assert(p.0.drop_first() =~= q.0);
    } else {
        lemma_unescape_sound(s.skip(1));
        let q = spec_unescape_prefix(s.skip(1))->0;
        assert(s.subrange(0, p.1) =~= seq![s[0]] + s.skip(1).subrange(0, q.1));
        assert(p.0.drop_first() =~= q.0);
    }
}

/// Reading back an escaped control-free text followed by a closing
/// quote yields exactly that text.
pub proof fn lemma_unescape_of_escape(u: Seq<u8>, rest: Seq<u8>)
    requires
        spec_text_ok(u),
    ensures
        spec_unescape_prefix(spec_escape(u) + seq![34u8] + rest) == Some(
            (u, spec_escape(u).len() as int),
        ),
    decreases u.len(),
{
    let s = spec_escape(u) + seq![34u8] + rest;
    if u.len() == 0 {
        assert(s[0] == 34);
        assert(spec_unescape_prefix(s) == Some((Seq::<u8>::empty(), 0int)));
        assert(u =~= Seq::<u8>::empty());
    } else {
        let tail = u.drop_first();
        assert(spec_text_ok(tail)) by {
            assert(forall|i: int| 0 <= i < tail.len() ==> tail[i] == u[i + 1]);
        }
        lemma_unescape_of_escape(tail, rest);
        let inner = spec_escape(tail) + seq![34u8] + rest;
        if u[0] == 34 || u[0] == 92 {
            assert(s[0] == 92 && s[1] == u[0]);
            assert(s.skip(2) =~= inner);
            assert(seq![u[0]] + tail =~= u);
        } else {
            assert(s[0] == u[0]);
            assert(s.skip(1) =~= inner);
            assert(seq![u[0]] + tail =~= u);
        }
    }
}

/// Parse the capability payload grammar: the fixed framing around two
/// JSON string bodies, with nothing before or after.
pub open spec fn spec_parse_payload(bytes: Seq<u8>) -> Option<(Seq<u8>, Seq<u8>)> {
    let pre = spec_payload_prefix();
    let mid = spec_payload_mid();
    if bytes.len() < pre.len() || bytes.subrange(0, pre.len() as int) != pre {
        None
    } else {
        match spec_unescape_prefix(bytes.skip(pre.len() as int)) {
            None => None,
            Some(p1) => {
                let m = pre.len() + p1.1;
                if bytes.len() < m + mid.len() || bytes.subrange(m, m + mid.len() as int) != mid {
                    None
                } else {
                    match spec_unescape_prefix(bytes.skip(m + mid.len() as int)) {
                        None => None,
                        Some(p2) => {
                            let q = m + mid.len() + p2.1;
                            if bytes.len() == q + 2 && bytes[q] == 34 && bytes[q + 1] == 125 {
                                Some((p1.0, p2.0))
                            } else {
                                None
                            }
                        },
                    }
                }
            },
        }
    }
}

/// The payload grammar round-trips: rendering any control-free
/// username and track id and parsing the bytes back yields exactly
/// that pair.
pub proof fn lemma_payload_round_trip(u: Seq<u8>, t: Seq<u8>)
    requires
        spec_text_ok(u),
        spec_text_ok(t),
    ensures
        spec_parse_payload(spec_payload(u, t)) == Some((u, t)),
{
    let pre = spec_payload_prefix();
    let mid = spec_payload_mid();
    let suf = spec_payload_suffix();
    let eu = spec_escape(u);
    let et = spec_escape(t);
    let bytes = spec_payload(u, t);
    assert(bytes.subrange(0, pre.len() as int) =~= pre);
    assert(bytes.skip(pre.len() as int) =~= eu + seq![34u8] + (mid.skip(1) + et + suf));
    lemma_unescape_of_escape(u, mid.skip(1) + et + suf);
    let m = pre.len() + eu.len();
    assert(bytes.subrange(m as int, m + mid.len() as int) =~= mid);
    assert(bytes.skip(m + mid.len() as int) =~= et + seq![34u8] + seq![125u8]);
    lemma_unescape_of_escape(t, seq![125u8]);
    let q = m + mid.len() + et.len();
    assert(bytes[q as int] == 34);
    assert(bytes[q as int + 1] == 125);
    assert(bytes.len() == q + 2);
}

fn push_prefix(out: &mut Vec<u8>)
    ensures
        final(out)@ == old(out)@ + spec_payload_prefix(),
{
    out.push(123);
    out.push(34);
    out.push(117);
    out.push(115);
    out.push(101);
    out.push(114);
    out.push(110);
    out.push(97);
    out.push(109);
    out.push(101);
    out.push(34);
    out.push(58);
    out.push(34);
    proof {
        assert(final(out)@ =~= old(out)@ + spec_payload_prefix());
    }
}

fn push_mid(out: &mut Vec<u8>)
    ensures
        final(out)@ == old(out)@ + spec_payload_mid(),
{
    out.push(34);
    out.push(44);
    out.push(34);
    out.push(116);
    out.push(114);
    out.push(97);
    out.push(99);
    out.push(107);
    out.push(95);
    out.push(105);
    out.push(100);
    out.push(34);
    out.push(58);
    out.push(34);
    proof {
        assert(final(out)@ =~= old(out)@ + spec_payload_mid());
    }
}

proof fn lemma_escape_snoc(s: Seq<u8>, x: u8)
    ensures
        spec_escape(s.push(x)) == spec_escape(s) + spec_esc_byte(x),
    decreases s.len(),
{
    if s.len() == 0 {
        reveal_with_fuel(spec_escape, 3);
        assert(s.push(x)[0] == x);
        assert(s.push(x).drop_first() =~= Seq::<u8>::empty());
        assert(spec_escape(s.push(x)) =~= spec_escape(s) + spec_esc_byte(x));
    } else {
        assert(s.push(x)[0] == s[0]);
        assert(s.push(x).drop_first() =~= s.drop_first().push(x));
        lemma_escape_snoc(s.drop_first(), x);
        assert(spec_escape(s.push(x)) == spec_esc_byte(s[0]) + spec_escape(s.drop_first().push(x)));
        assert(spec_escape(s.drop_first().push(x)) =~= spec_escape(s.drop_first()) + spec_esc_byte(x));
        assert(spec_escape(s) == spec_esc_byte(s[0]) + spec_escape(s.drop_first()));
        assert((spec_esc_byte(s[0]) + (spec_escape(s.drop_first()) + spec_esc_byte(x))) =~= ((
        spec_esc_byte(s[0]) + spec_escape(s.drop_first())) + spec_esc_byte(x)));
        assert(spec_escape(s.push(x)) =~= spec_escape(s) + spec_esc_byte(x));
    }
}

fn push_escaped(out: &mut Vec<u8>, text: &[u8]) -> (ok: bool)
    ensures
        ok <==> spec_text_ok(text@),
        ok ==> final(out)@ == old(out)@ + spec_escape(text@),
{
    let ghost base = out@;
    let mut i: usize = 0;
    while i < text.len()
        invariant
            i <= text@.len(),
            out@ == base + spec_escape(text@.subrange(0, i as int)),
            forall|j: int| 0 <= j < i ==> text@[j] >= 32,
        decreases text@.len() - i,
    {
        let b = text[i];
        if b < 32 {
            return false;
        }
        if b == 34 || b == 92 {
            out.push(92);
        }
        out.push(b);
        i = i + 1;
        proof {
            lemma_escape_snoc(text@.subrange(0, i - 1), text@[i - 1]);
            assert(text@.subrange(0, i - 1).push(text@[i - 1]) =~= text@.subrange(0, i as int));
            assert(out@ =~= base + spec_escape(text@.subrange(0, i as int)));
        }
    }
    proof {
        assert(text@.subrange(0, text@.len() as int) =~= text@);
    }
    true
}

/// Render the capability payload for a username and track id; rejects
/// exactly those containing control bytes, which the grammar cannot
/// carry.
pub fn render_payload(username: &[u8], track_id: &[u8]) -> (r: Result<Vec<u8>, ServerError>)
    ensures
        r is Ok <==> spec_text_ok(username@) && spec_text_ok(track_id@),
        r matches Ok(v) ==> v@ == spec_payload(username@, track_id@),
        r matches Err(e) ==> e matches ServerError::ParamsError(_),
{
    let mut out: Vec<u8> = Vec::new();
    push_prefix(&mut out);
    if !push_escaped(&mut out, username) {
        return Err(ServerError::ParamsError(String::from_str("control byte in username")));
    }
    push_mid(&mut out);
    if !push_escaped(&mut out, track_id) {
        return Err(ServerError::ParamsError(String::from_str("control byte in track id")));
    }
    out.push(34);
    out.push(125);
    proof {
        assert(out@ =~= spec_payload(username@, track_id@));
    }
    Ok(out)
}

fn scan_string(bytes: &[u8], start: usize) -> (r: Option<(Vec<u8>, usize)>)
    requires
        start <= bytes@.len(),
    ensures
        r is Some <==> spec_unescape_prefix(bytes@.skip(start as int)) is Some,
        r matches Some(p) ==> ({
            let sp = spec_unescape_prefix(bytes@.skip(start as int))->0;
            p.0@ == sp.0 && p.1 == start + sp.1 && p.1 < bytes@.len()
        }),
{
    let mut acc: Vec<u8> = Vec::new();
    let mut pos: usize = start;
    loop
        invariant
            start <= pos <= bytes@.len(),
            ({
                let whole = spec_unescape_prefix(bytes@.skip(start as int));
                let here = spec_unescape_prefix(bytes@.skip(pos as int));
                match here {
                    Some(p) => whole == Some((acc@ + p.0, pos - start + p.1)),
                    None => whole is None,
                }
            }),
        decreases bytes@.len() - pos,
    {
        proof {
            assert(bytes@.skip(pos as int).len() == bytes@.len() - pos);
        }
        if pos >= bytes.len() {
            return None;
        }
        let b = bytes[pos];
        proof {
            assert(bytes@.skip(pos as int)[0] == bytes@[pos as int]);
        }
        if b == 34 {
            proof {
                assert(spec_unescape_prefix(bytes@.skip(pos as int)) == Some(
                    (Seq::<u8>::empty(), 0int),
                ));
                assert(acc@ + Seq::<u8>::empty() =~= acc@);
            }
            return Some((acc, pos));
        } else if b == 92 {
            if pos + 1 >= bytes.len() {
                return None;
            }
            let b2 = bytes[pos + 1];
            proof {
                assert(bytes@.skip(pos as int)[1] == bytes@[pos as int + 1]);
                assert(bytes@.skip(pos as int).skip(2) =~= bytes@.skip(pos as int + 2));
            }
            if b2 == 34 || b2 == 92 {
                acc.push(b2);
                pos = pos + 2;
                proof {
                    let here = spec_unescape_prefix(bytes@.skip(pos as int));
                    if here is Some {
                        let p = here->0;
                        assert(acc@ + p.0 =~= acc@.subrange(0, acc@.len() - 1) + (seq![
                            bytes@[pos as int - 1],
                        ] + p.0));
                    }
                }
            } else {
                return None;
            }
        } else if b < 32 {
            return None;
        } else {
            acc.push(b);
            pos = pos + 1;
            proof {
                assert(bytes@.skip(pos as int - 1).skip(1) =~= bytes@.skip(pos as int));
                let here = spec_unescape_prefix(bytes@.skip(pos as int));
                if here is Some {
                    let p = here->0;
                    assert(acc@ + p.0 =~= acc@.subrange(0, acc@.len() - 1) + (seq![
                        bytes@[pos as int - 1],
                    ] + p.0));
                }
            }
        }
    }
}

fn match_at(bytes: &[u8], start: usize, pat: &[u8]) -> (b: bool)
    requires
        start <= bytes@.len(),
    ensures
        b <==> (start + pat@.len() <= bytes@.len() && bytes@.subrange(
            start as int,
            start + pat@.len(),
        ) == pat@),
{
    let n = bytes.len();
    if pat.len() > n - start {
        proof {
            assert(start + pat@.len() > bytes@.len());
        }
        return false;
    }
    let mut i: usize = 0;
    while i < pat.len()
        invariant
            i <= pat@.len(),
            start + pat@.len() <= bytes@.len(),
            bytes@.len() <= usize::MAX,
            forall|j: int| 0 <= j < i ==> bytes@[start + j] == pat@[j],
        decreases pat@.len() - i,
    {
        if bytes[start + i] != pat[i] {
            proof {
                assert(bytes@.subrange(start as int, start + pat@.len())[i as int] == bytes@[start
                    + i]);
            }
            return false;
        }
        i = i + 1;
    }
    proof {
        assert(bytes@.subrange(start as int, start + pat@.len()) =~= pat@);
    }
    true
}

fn payload_prefix_bytes() -> (r: Vec<u8>)
    ensures
        r@ == spec_payload_prefix(),
{
    let mut r: Vec<u8> = Vec::new();
    push_prefix(&mut r);
    proof {
        assert(r@ =~= spec_payload_prefix());
    }
    r
}

fn payload_mid_bytes() -> (r: Vec<u8>)
    ensures
        r@ == spec_payload_mid(),
{
    let mut r: Vec<u8> = Vec::new();
    push_mid(&mut r);
    proof {
        assert(r@ =~= spec_payload_mid());
    }
    r
}

/// Parse a capability payload back into its username and track id;
/// anything but the exact rendered grammar is rejected, and rejection
/// reads as an authentication failure — a wrong key yields garbage
/// here, and the response must not reveal more.
pub fn parse_payload(bytes: &[u8]) -> (r: Result<(Vec<u8>, Vec<u8>), ServerError>)
    ensures
        r is Ok <==> spec_parse_payload(bytes@) is Some,
        r matches Ok(p) ==> spec_parse_payload(bytes@) == Some((p.0@, p.1@)),
        r matches Err(e) ==> e matches ServerError::AuthenticationError,
{
    let n = bytes.len();
    let pre = payload_prefix_bytes();
    let mid = payload_mid_bytes();
    if !match_at(bytes, 0, pre.as_slice()) {
        proof {
            if bytes@.len() >= pre@.len() {
                assert(bytes@.subrange(0, pre@.len() as int) != spec_payload_prefix());
            }
        }
        return Err(ServerError::AuthenticationError);
    }
    let username = match scan_string(bytes, pre.len()) {
        Some(p) => p,
        None => {
            return Err(ServerError::AuthenticationError);
        },
    };
    let m = username.1;
    if !match_at(bytes, m, mid.as_slice()) {
        return Err(ServerError::AuthenticationError);
    }
    let track = match scan_string(bytes, m + mid.len()) {
        Some(p) => p,
        None => {
            return Err(ServerError::AuthenticationError);
        },
    };
    let q = track.1;
    if n - q == 2 && bytes[q] == 34 && bytes[q + 1] == 125 {
        Ok((username.0, track.0))
    } else {
        Err(ServerError::AuthenticationError)
    }
}

/// The full ciphertext `encrypt` hands out for a payload under a
/// secret and IV: the counter-mode body followed by its keyed
/// integrity tag.
pub open spec fn spec_sealed(secret: Seq<u8>, iv: Seq<u8>, payload: Seq<u8>) -> Seq<u8> {
    let body = spec_ctr_xor(secret, iv, payload);
    body + spec_mac(secret, iv, body)
}

/// Decrypting what `encrypt` produced, under the same secret and IV,
/// passes the integrity check and restores the payload exactly — for
/// a payload of any length and any IV.  The same check is what
/// rejects a ciphertext whose tag was computed under another secret.
pub proof fn lemma_codec_round_trip(secret: Seq<u8>, iv: Seq<u8>, payload: Seq<u8>)
    ensures
        ({
            let c = spec_sealed(secret, iv, payload);
            &&& c.len() == payload.len() + 16
            &&& c.skip(c.len() - 16) == spec_mac(secret, iv, c.take(c.len() - 16))
            &&& spec_ctr_xor(secret, iv, c.take(c.len() - 16)) == payload
        }),
{
    let body = spec_ctr_xor(secret, iv, payload);
    let tag = spec_mac(secret, iv, body);
    let c = body + tag;
    assert(c.take(c.len() - 16) =~= body);
    assert(c.skip(c.len() - 16) =~= tag);
    lemma_ctr_xor_involution(secret, iv, payload);
}

/// The hex characters of a byte sequence, as the capability URL
/// carries ciphertext and IV.
pub open spec fn spec_hex_chars(bytes: Seq<u8>) -> Seq<char> {
    hex::spec_hex_encode_chars(bytes)
}

/// Bytes of a string percent-encoded with every non-alphanumeric
/// byte escaped, as characters.
pub open spec fn spec_percent_encode(bytes: Seq<u8>) -> Seq<char>
    decreases bytes.len(),
{
    if bytes.len() == 0 {
        Seq::empty()
    } else {
        let b = bytes[0];
        let head: Seq<char> = if (48 <= b && b <= 57) || (65 <= b && b <= 90) || (97 <= b && b
            <= 122) {
            seq![b as char]
        } else {
            seq![
                '%',
                hex::spec_hex_upper(b / 16) as char,
                hex::spec_hex_upper(b % 16) as char,
            ]
        };
        head + spec_percent_encode(bytes.drop_first())
    }
}

/// Relies on `percent_encoding::utf8_percent_encode` with the
/// `NON_ALPHANUMERIC` set: every byte of the string's UTF-8 form that
/// is not an ASCII alphanumeric becomes `%XX` with upper-case hex
/// digits, and alphanumeric bytes pass through unchanged.
#[verifier::external_body]
fn percent_encode_str(s: &str) -> (r: String)
    ensures
        r@ == spec_percent_encode(s.spec_bytes()),
{
    percent_encoding::utf8_percent_encode(s, percent_encoding::NON_ALPHANUMERIC).to_string()
}

/// The capability URL for a ciphertext, IV and username: the stream
/// path with the hex-encoded sign and IV and the percent-encoded
/// username as query values.
pub open spec fn spec_sign_url(cipher: Seq<u8>, iv: Seq<u8>, username: Seq<u8>) -> Seq<char> {
    "/audio-stream-with-sign/audio.ogg?sign="@ + spec_hex_chars(cipher) + "&iv="@ + spec_hex_chars(
        iv,
    ) + "&username="@ + spec_percent_encode(username)
}

/// Mint a one-time stream capability URL for `track_id` under this
/// account: the payload is rendered, encrypted under the account's
/// secret with a fresh random IV, and embedded hex-encoded beside the
/// percent-encoded username.  Fails exactly when the username or
/// track id holds control bytes.
pub fn audio_sign_url(account: &SpotifyAccount, username: &str, track_id: &str) -> (r: Result<
    String,
    ServerError,
>)
    requires
        account.spec_secret().len() == 16,
    ensures
        r is Ok <==> spec_text_ok(username.spec_bytes()) && spec_text_ok(track_id.spec_bytes()),
        r matches Ok(url) ==> (exists|iv: Seq<u8>|
            iv.len() == 16 && url@ == spec_sign_url(
                spec_sealed(
                    account.spec_secret(),
                    iv,
                    spec_payload(username.spec_bytes(), track_id.spec_bytes()),
                ),
                iv,
                username.spec_bytes(),
            )),
        r matches Err(e) ==> e matches ServerError::ParamsError(_),
{
    let payload = render_payload(username.as_bytes(), track_id.as_bytes())?;
    let enc = account.encrypt(payload.as_slice());
    let sign_hex = hex::encode(enc.0.as_slice());
    let iv_hex = hex::encode(enc.1.as_slice());
    let user_enc = percent_encode_str(username);
    let mut url = String::from_str("/audio-stream-with-sign/audio.ogg?sign=");
    url.append(sign_hex.as_str());
    url.append("&iv=");
    url.append(iv_hex.as_str());
    url.append("&username=");
    url.append(user_enc.as_str());
    proof {
        let iv = enc.1@;
        assert(url@ =~= spec_sign_url(
            spec_sealed(
                account.spec_secret(),
                iv,
                spec_payload(username.spec_bytes(), track_id.spec_bytes()),
            ),
            iv,
            username.spec_bytes(),
        ));
    }
    Ok(url)
}

/// Whether the presented hex values decode to a ciphertext this
/// account's secret accepts: well-formed hex, a 16-byte IV, and a
/// body whose integrity tag this secret reproduces.
pub open spec fn spec_capability_accepted(
    secret: Seq<u8>,
    sign_hex: Seq<u8>,
    iv_hex: Seq<u8>,
) -> bool {
    let sd = hex::spec_hex_decode(sign_hex);
    let ivd = hex::spec_hex_decode(iv_hex);
    sign_hex.len() % 2 == 0 && iv_hex.len() % 2 == 0 && ivd.len() == 16 && sd.len() >= 16
        && sd.skip(sd.len() - 16) == spec_mac(secret, ivd, sd.take(sd.len() - 16))
}

/// The plaintext an accepted capability decrypts to: the counter-mode
/// transform of the ciphertext body under the decoded IV.
pub open spec fn spec_capability_plaintext(
    secret: Seq<u8>,
    sign_hex: Seq<u8>,
    iv_hex: Seq<u8>,
) -> Seq<u8> {
    let sd = hex::spec_hex_decode(sign_hex);
    spec_ctr_xor(secret, hex::spec_hex_decode(iv_hex), sd.take(sd.len() - 16))
}

/// Check a presented capability: hex-decode the sign and IV, decrypt
/// under the presented account's secret — which rejects anything not
/// sealed under that secret — and parse the payload.  The decoded
/// username and track id come back on success; malformed hex or a
/// rejected decryption is a parameter error (as the original request
/// parameters are at fault), and an accepted ciphertext whose payload
/// does not parse is an authentication failure.
pub fn verify_capability(account: &SpotifyAccount, sign_hex: &str, iv_hex: &str) -> (r: Result<
    (Vec<u8>, Vec<u8>),
    ServerError,
>)
    requires
        account.spec_secret().len() == 16,
    ensures
        r is Ok <==> (spec_capability_accepted(
            account.spec_secret(),
            sign_hex.spec_bytes(),
            iv_hex.spec_bytes(),
        ) && spec_parse_payload(
            spec_capability_plaintext(
                account.spec_secret(),
                sign_hex.spec_bytes(),
                iv_hex.spec_bytes(),
            ),
        ) is Some),
        r matches Ok(p) ==> spec_parse_payload(
            spec_capability_plaintext(
                account.spec_secret(),
                sign_hex.spec_bytes(),
                iv_hex.spec_bytes(),
            ),
        ) == Some((p.0@, p.1@)),
        r matches Err(e) ==> ((spec_capability_accepted(
            account.spec_secret(),
            sign_hex.spec_bytes(),
            iv_hex.spec_bytes(),
        ) ==> e matches ServerError::AuthenticationError) && (!spec_capability_accepted(
            account.spec_secret(),
            sign_hex.spec_bytes(),
            iv_hex.spec_bytes(),
        ) ==> e matches ServerError::ParamsError(_))),
{
    let iv = hex::decode(iv_hex)?;
    let sign = hex::decode(sign_hex)?;
    let dec = match account.decrypt(iv.as_slice(), sign.as_slice()) {
        Ok(d) => d,
        Err(_) => {
            return Err(ServerError::ParamsError(String::from_str(
                "audio sign decryption failed",
            )));
        },
    };
    match parse_payload(dec.as_slice()) {
        Ok(p) => Ok(p),
        Err(e) => Err(e),
    }
}

} // verus!
