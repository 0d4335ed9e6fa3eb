//! Symmetric cipher behind the signed stream capability.
//!
//! A 128-bit-block ARX cipher (the Speck round function, 32 rounds) is
//! run in counter mode under the account's 16-byte secret and a 16-byte
//! initialisation vector; a keyed 16-byte integrity tag over the
//! ciphertext, chained through the same block function, lets
//! decryption fail on anything not produced under the same secret.

use vstd::prelude::*;

verus! {

/// Number of rounds of the block function.
pub const CIPHER_ROUNDS: usize = 32;

/// One ARX round applied to the two block halves under one round key.
pub open spec fn spec_round(x: u64, y: u64, k: u64) -> (u64, u64) {
    let xr = (x >> 8) | (x << 56);
    let x2 = xr.wrapping_add(y) ^ k;
    let y2 = ((y << 3) | (y >> 61)) ^ x2;
    (x2, y2)
}

/// One step of the key schedule: mix the word `l` into the running key
/// `k` using the round counter `i`.
pub open spec fn spec_schedule_step(l: u64, k: u64, i: u64) -> (u64, u64) {
    let lr = (l >> 8) | (l << 56);
    let l2 = k.wrapping_add(lr) ^ i;
    let k2 = ((k << 3) | (k >> 61)) ^ l2;
    (l2, k2)
}

/// Key-schedule state after `i` steps: the pair `(l, k)` the schedule
/// holds when round `i` begins.
pub open spec fn spec_round_keys_state(l: u64, k: u64, i: int) -> (u64, u64)
    decreases i,
{
    if i <= 0 {
        (l, k)
    } else {
        let prev = spec_round_keys_state(l, k, i - 1);
        spec_schedule_step(prev.0, prev.1, (i - 1) as u64)
    }
}

/// Block state after the first `n` rounds.
pub open spec fn spec_rounds(x: u64, y: u64, l: u64, k: u64, n: int) -> (u64, u64)
    decreases n,
{
    if n <= 0 {
        (x, y)
    } else {
        let prev = spec_rounds(x, y, l, k, n - 1);
        let rk = spec_round_keys_state(l, k, n - 1).1;
        spec_round(prev.0, prev.1, rk)
    }
}

/// The block function: 32 rounds over the block `(x, y)` under the key
/// halves `(l, k)`.
pub open spec fn spec_block(l: u64, k: u64, x: u64, y: u64) -> (u64, u64) {
    spec_rounds(x, y, l, k, CIPHER_ROUNDS as int)
}

/// A 16-byte sequence read as two little-endian words, low half first.
pub open spec fn spec_word_of_bytes(b: Seq<u8>, base: int) -> u64 {
    (b[base] as u64) | ((b[base + 1] as u64) << 8) | ((b[base + 2] as u64) << 16) | ((b[base
        + 3] as u64) << 24) | ((b[base + 4] as u64) << 32) | ((b[base + 5] as u64) << 40) | ((b[base
        + 6] as u64) << 48) | ((b[base + 7] as u64) << 56)
}

/// Byte `j` (0..8) of a word, little-endian.
pub open spec fn spec_byte_of_word(w: u64, j: int) -> u8 {
    (w >> (8 * j)) as u8
}

/// Keystream byte `i` for a 16-byte secret and 16-byte IV: the counter
/// block of index `i / 16` is the IV with `i / 16` added into its low
/// word, run through the block function under the secret.
pub open spec fn spec_keystream_byte(secret: Seq<u8>, iv: Seq<u8>, i: int) -> u8 {
    let l = spec_word_of_bytes(secret, 8);
    let k = spec_word_of_bytes(secret, 0);
    let c0 = spec_word_of_bytes(iv, 0).wrapping_add((i / 16) as u64);
    let c1 = spec_word_of_bytes(iv, 8);
    let out = spec_block(l, k, c0, c1);
    if i % 16 < 8 {
        spec_byte_of_word(out.0, i % 16)
    } else {
        spec_byte_of_word(out.1, i % 16 - 8)
    }
}

/// Counter-mode transform: XOR each data byte with its keystream byte.
/// Applying it twice with the same secret and IV is the identity.
pub open spec fn spec_ctr_xor(secret: Seq<u8>, iv: Seq<u8>, data: Seq<u8>) -> Seq<u8> {
    Seq::new(data.len(), |i: int| data[i] ^ spec_keystream_byte(secret, iv, i))
}

/// XOR with the same keystream twice gives back the data: the heart of
/// the encrypt/decrypt round trip.
pub proof fn lemma_ctr_xor_involution(secret: Seq<u8>, iv: Seq<u8>, data: Seq<u8>)
    ensures
        spec_ctr_xor(secret, iv, spec_ctr_xor(secret, iv, data)) =~= data,
{
    assert forall|i: int| 0 <= i < data.len() implies spec_ctr_xor(
        secret,
        iv,
        spec_ctr_xor(secret, iv, data),
    )[i] == data[i] by {
        let k = spec_keystream_byte(secret, iv, i);
        let d = data[i];
        assert((d ^ k) ^ k == d) by (bit_vector);
    }
}

/// Decrypting under another secret restores a payload byte exactly
/// where the two keystreams agree: a wrong key yields the original
/// byte sequence only if its keystream matches at every position.
pub proof fn lemma_wrong_keystream_differs(
    secret_a: Seq<u8>,
    secret_b: Seq<u8>,
    iv: Seq<u8>,
    data: Seq<u8>,
    i: int,
)
    requires
        0 <= i < data.len(),
    ensures
        spec_ctr_xor(secret_b, iv, spec_ctr_xor(secret_a, iv, data))[i] == data[i]
            <==> spec_keystream_byte(secret_a, iv, i) == spec_keystream_byte(secret_b, iv, i),
{
    let k1 = spec_keystream_byte(secret_a, iv, i);
    let k2 = spec_keystream_byte(secret_b, iv, i);
    let d = data[i];
    assert(((d ^ k1) ^ k2 == d) <==> (k1 == k2)) by (bit_vector);
}

fn round_keys(secret: &[u8]) -> (ks: Vec<u64>)
    requires
        secret@.len() == 16,
    ensures
        ks@.len() == CIPHER_ROUNDS,
        forall|i: int|
            0 <= i < CIPHER_ROUNDS ==> ks@[i] == spec_round_keys_state(
                spec_word_of_bytes(secret@, 8),
                spec_word_of_bytes(secret@, 0),
                i,
            ).1,
{
    let l0 = word_of_bytes(secret, 8);
    let k0 = word_of_bytes(secret, 0);
    let mut ks: Vec<u64> = Vec::new();
    let mut l = l0;
    let mut k = k0;
    let mut i: usize = 0;
    while i < CIPHER_ROUNDS
        invariant
            i <= CIPHER_ROUNDS,
            ks@.len() == i,
            (l, k) == spec_round_keys_state(l0, k0, i as int),
            forall|j: int| 0 <= j < i ==> ks@[j] == spec_round_keys_state(l0, k0, j).1,
        decreases CIPHER_ROUNDS - i,
    {
        ks.push(k);
        let lr = (l >> 8) | (l << 56);
        let l2 = k.wrapping_add(lr) ^ (i as u64);
        let k2 = ((k << 3) | (k >> 61)) ^ l2;
        l = l2;
        k = k2;
        i = i + 1;
    }
    ks
}

fn word_of_bytes(b: &[u8], base: usize) -> (w: u64)
    requires
        base + 8 <= b@.len(),
    ensures
        w == spec_word_of_bytes(b@, base as int),
{
    (b[base] as u64) | ((b[base + 1] as u64) << 8) | ((b[base + 2] as u64) << 16) | ((b[base
        + 3] as u64) << 24) | ((b[base + 4] as u64) << 32) | ((b[base + 5] as u64) << 40) | ((b[base
        + 6] as u64) << 48) | ((b[base + 7] as u64) << 56)
}

fn block(ks: &Vec<u64>, l0: Ghost<u64>, k0: Ghost<u64>, x0: u64, y0: u64) -> (out: (u64, u64))
    requires
        ks@.len() == CIPHER_ROUNDS,
        forall|i: int|
            0 <= i < CIPHER_ROUNDS ==> ks@[i] == spec_round_keys_state(l0@, k0@, i).1,
    ensures
        out == spec_block(l0@, k0@, x0, y0),
{
    let mut x = x0;
    let mut y = y0;
    let mut i: usize = 0;
    while i < CIPHER_ROUNDS
        invariant
            i <= CIPHER_ROUNDS,
            ks@.len() == CIPHER_ROUNDS,
            forall|j: int|
                0 <= j < CIPHER_ROUNDS ==> ks@[j] == spec_round_keys_state(l0@, k0@, j).1,
            (x, y) == spec_rounds(x0, y0, l0@, k0@, i as int),
        decreases CIPHER_ROUNDS - i,
    {
        let rk = ks[i];
        let xr = (x >> 8) | (x << 56);
        let x2 = xr.wrapping_add(y) ^ rk;
        let y2 = ((y << 3) | (y >> 61)) ^ x2;
        x = x2;
        y = y2;
        i = i + 1;
    }
    (x, y)
}

/// Apply the counter-mode keystream for `secret` and `iv` to `data`.
/// The result has exactly the data's length; applying the same call to
/// the result restores the data.
pub fn ctr_xor(secret: &[u8], iv: &[u8], data: &[u8]) -> (out: Vec<u8>)
    requires
        secret@.len() == 16,
        iv@.len() == 16,
    ensures
        out@ == spec_ctr_xor(secret@, iv@, data@),
        out@.len() == data@.len(),
{
    let ks = round_keys(secret);
    let ghost l0 = spec_word_of_bytes(secret@, 8);
    let ghost k0 = spec_word_of_bytes(secret@, 0);
    let iv_lo = word_of_bytes(iv, 0);
    let iv_hi = word_of_bytes(iv, 8);
    let mut out: Vec<u8> = Vec::new();
    let mut i: usize = 0;
    while i < data.len()
        invariant
            i <= data@.len(),
            out@.len() == i,
            ks@.len() == CIPHER_ROUNDS,
            forall|j: int|
                0 <= j < CIPHER_ROUNDS ==> ks@[j] == spec_round_keys_state(l0, k0, j).1,
            l0 == spec_word_of_bytes(secret@, 8),
            k0 == spec_word_of_bytes(secret@, 0),
            iv_lo == spec_word_of_bytes(iv@, 0),
            iv_hi == spec_word_of_bytes(iv@, 8),
            forall|j: int| 0 <= j < i ==> out@[j] == spec_ctr_xor(secret@, iv@, data@)[j],
        decreases data@.len() - i,
    {
        let counter = (i / 16) as u64;
        let blk = block(&ks, Ghost(l0), Ghost(k0), iv_lo.wrapping_add(counter), iv_hi);
        let j = i % 16;
        let ks_byte: u8 = if j < 8 {
            (blk.0 >> ((8 * j) as u32)) as u8
        } else {
            (blk.1 >> ((8 * (j - 8)) as u32)) as u8
        };
        proof {
            assert(ks_byte == spec_keystream_byte(secret@, iv@, i as int));
        }
        out.push(data[i] ^ ks_byte);
        i = i + 1;
    }
    proof {
        assert(out@ =~= spec_ctr_xor(secret@, iv@, data@));
    }
    out
}

/// Byte `i` of a message padded with zeroes past its end.
pub open spec fn spec_padded_byte(data: Seq<u8>, i: int) -> u8 {
    if 0 <= i < data.len() {
        data[i]
    } else {
        0
    }
}

/// Eight padded message bytes read as one little-endian word.
pub open spec fn spec_padded_word(data: Seq<u8>, base: int) -> u64 {
    (spec_padded_byte(data, base) as u64) | ((spec_padded_byte(data, base + 1) as u64) << 8) | ((
    spec_padded_byte(data, base + 2) as u64) << 16) | ((spec_padded_byte(data, base + 3) as u64)
        << 24) | ((spec_padded_byte(data, base + 4) as u64) << 32) | ((spec_padded_byte(
        data,
        base + 5,
    ) as u64) << 40) | ((spec_padded_byte(data, base + 6) as u64) << 48) | ((spec_padded_byte(
        data,
        base + 7,
    ) as u64) << 56)
}

/// Chain state of the integrity tag after `n` 16-byte message chunks:
/// the IV and the message length seed the chain, and each chunk is
/// folded in through the block function.
pub open spec fn spec_tag_state(
    l: u64,
    k: u64,
    iv0: u64,
    iv1: u64,
    data: Seq<u8>,
    n: int,
) -> (u64, u64)
    decreases n,
{
    if n <= 0 {
        spec_block(l, k, iv0 ^ (data.len() as u64), iv1)
    } else {
        let prev = spec_tag_state(l, k, iv0, iv1, data, n - 1);
        spec_block(
            l,
            k,
            prev.0 ^ spec_padded_word(data, 16 * (n - 1)),
            prev.1 ^ spec_padded_word(data, 16 * (n - 1) + 8),
        )
    }
}

/// Number of 16-byte chunks a message occupies.
pub open spec fn spec_tag_chunks(len: int) -> int {
    (len + 15) / 16
}

/// The 16-byte keyed integrity tag of a message under a secret and IV:
/// the chain state after every chunk, serialized little-endian.
pub open spec fn spec_mac(secret: Seq<u8>, iv: Seq<u8>, data: Seq<u8>) -> Seq<u8> {
    let l = spec_word_of_bytes(secret, 8);
    let k = spec_word_of_bytes(secret, 0);
    let st = spec_tag_state(
        l,
        k,
        spec_word_of_bytes(iv, 0),
        spec_word_of_bytes(iv, 8),
        data,
        spec_tag_chunks(data.len() as int),
    );
    Seq::new(
        16,
        |j: int|
            if j < 8 {
                spec_byte_of_word(st.0, j)
            } else {
                spec_byte_of_word(st.1, j - 8)
            },
    )
}

fn padded_byte(data: &[u8], off: usize) -> (b: u8)
    ensures
        b == spec_padded_byte(data@, off as int),
{
    if off < data.len() {
        data[off]
    } else {
        0
    }
}

fn padded_word(data: &[u8], base: usize) -> (w: u64)
    requires
        base <= 8,
    ensures
        w == spec_padded_word(data@, base as int),
{
    (padded_byte(data, base) as u64) | ((padded_byte(data, base + 1) as u64) << 8) | ((padded_byte(
        data,
        base + 2,
    ) as u64) << 16) | ((padded_byte(data, base + 3) as u64) << 24) | ((padded_byte(
        data,
        base + 4,
    ) as u64) << 32) | ((padded_byte(data, base + 5) as u64) << 40) | ((padded_byte(
        data,
        base + 6,
    ) as u64) << 48) | ((padded_byte(data, base + 7) as u64) << 56)
}

proof fn lemma_padded_byte_skip(data: Seq<u8>, b: int, i: int)
    requires
        0 <= b <= data.len(),
        0 <= i,
    ensures
        spec_padded_byte(data.skip(b), i) == spec_padded_byte(data, b + i),
{
    if i < data.skip(b).len() {
        assert(data.skip(b)[i] == data[b + i]);
    }
}

proof fn lemma_padded_word_skip(data: Seq<u8>, b: int, o: int)
    requires
        0 <= b <= data.len(),
        0 <= o,
    ensures
        spec_padded_word(data.skip(b), o) == spec_padded_word(data, b + o),
{
    lemma_padded_byte_skip(data, b, o);
    lemma_padded_byte_skip(data, b, o + 1);
    lemma_padded_byte_skip(data, b, o + 2);
    lemma_padded_byte_skip(data, b, o + 3);
    lemma_padded_byte_skip(data, b, o + 4);
    lemma_padded_byte_skip(data, b, o + 5);
    lemma_padded_byte_skip(data, b, o + 6);
    lemma_padded_byte_skip(data, b, o + 7);
}

/// Compute the 16-byte keyed integrity tag of `data` under `secret`
/// and `iv`.  The tag depends on the secret, the IV, the length and
/// every byte of the message, so a message transcribed under another
/// secret fails the comparison on decryption.
pub fn mac_tag(secret: &[u8], iv: &[u8], data: &[u8]) -> (out: Vec<u8>)
    requires
        secret@.len() == 16,
        iv@.len() == 16,
    ensures
        out@ == spec_mac(secret@, iv@, data@),
        out@.len() == 16,
{
    let ks = round_keys(secret);
    let ghost l0 = spec_word_of_bytes(secret@, 8);
    let ghost k0 = spec_word_of_bytes(secret@, 0);
    let iv_lo = word_of_bytes(iv, 0);
    let iv_hi = word_of_bytes(iv, 8);
    let n = data.len();
    let st0 = block(&ks, Ghost(l0), Ghost(k0), iv_lo ^ (n as u64), iv_hi);
    let mut s0 = st0.0;
    let mut s1 = st0.1;
    let mut rest: &[u8] = data;
    let ghost mut c: int = 0;
    proof {
        assert(data@.skip(0) =~= data@);
    }
    while rest.len() > 0
        invariant
            n == data@.len(),
            0 <= c,
            rest@.len() > 0 ==> 16 * c <= n && rest@ == data@.skip(16 * c) && c < spec_tag_chunks(
                n as int,
            ),
            rest@.len() == 0 ==> c == spec_tag_chunks(n as int),
            ks@.len() == CIPHER_ROUNDS,
            forall|j: int|
                0 <= j < CIPHER_ROUNDS ==> ks@[j] == spec_round_keys_state(l0, k0, j).1,
            iv_lo == spec_word_of_bytes(iv@, 0),
            iv_hi == spec_word_of_bytes(iv@, 8),
            (s0, s1) == spec_tag_state(l0, k0, iv_lo, iv_hi, data@, c),
        decreases rest@.len(),
    {
        let w0 = padded_word(rest, 0);
        let w1 = padded_word(rest, 8);
        proof {
            lemma_padded_word_skip(data@, 16 * c, 0);
            lemma_padded_word_skip(data@, 16 * c, 8);
        }
        let st = block(&ks, Ghost(l0), Ghost(k0), s0 ^ w0, s1 ^ w1);
        s0 = st.0;
        s1 = st.1;
        let ghost prev_rest = rest@;
        let took_full = rest.len() >= 16;
        rest = if took_full {
            rest.split_at(16).1
        } else {
            rest.split_at(rest.len()).1
        };
        proof {
            c = c + 1;
            if took_full {
                assert(rest@ =~= data@.skip(16 * c));
                if rest@.len() == 0 {
                    assert(n == 16 * c);
                    assert(c == spec_tag_chunks(n as int));
                } else {
                    assert(n > 16 * c);
                    assert(c < spec_tag_chunks(n as int));
                }
            } else {
                assert(rest@.len() == 0);
                assert(16 * (c - 1) < n < 16 * c);
                assert(c == spec_tag_chunks(n as int));
            }
        }
    }
    let mut out: Vec<u8> = Vec::new();
    let mut j: usize = 0;
    while j < 16
        invariant
            j <= 16,
            out@.len() == j,
            (s0, s1) == spec_tag_state(
                l0,
                k0,
                spec_word_of_bytes(iv@, 0),
                spec_word_of_bytes(iv@, 8),
                data@,
                spec_tag_chunks(data@.len() as int),
            ),
            l0 == spec_word_of_bytes(secret@, 8),
            k0 == spec_word_of_bytes(secret@, 0),
            forall|i: int| 0 <= i < j ==> out@[i] == spec_mac(secret@, iv@, data@)[i],
        decreases 16 - j,
    {
        let b: u8 = if j < 8 {
            (s0 >> ((8 * j) as u64)) as u8
        } else {
            (s1 >> ((8 * (j - 8)) as u64)) as u8
        };
        out.push(b);
        j = j + 1;
    }
    proof {
        assert(out@ =~= spec_mac(secret@, iv@, data@));
    }
    out
}

/// Whether two byte slices hold the same bytes.
pub fn bytes_equal(a: &[u8], b: &[u8]) -> (r: bool)
    ensures
        r == (a@ == b@),
{
    if a.len() != b.len() {
        proof {
            assert(a@ != b@);
        }
        return false;
    }
    let mut i: usize = 0;
    while i < a.len()
        invariant
            i <= a@.len(),
            a@.len() == b@.len(),
            forall|j: int| 0 <= j < i ==> a@[j] == b@[j],
        decreases a@.len() - i,
    {
        if a[i] != b[i] {
            proof {
                assert(a@ != b@);
            }
            return false;
        }
        i = i + 1;
    }
    proof {
        assert(a@ =~= b@);
    }
    true
}

} // verus!
