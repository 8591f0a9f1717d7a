//! The encryption of the daemon's command channel. Every line on the wire is
//! `ENC <token>`, where the token is URL-safe base64 (no padding) of
//! `version (1) || nonce (12 bytes) || ChaCha20-Poly1305 ciphertext`.
use vstd::prelude::*;
use base64::Engine;
use chacha20poly1305::aead::{Aead, KeyInit};
use rand_core::RngCore;
use crate::text::{chars_of, is_ws, lemma_trim_around, sub_vec, trim, trim_end, trim_start, trimmed};

verus! {

broadcast use vstd::seq_lib::group_seq_properties;

/// The version byte of the token format.
pub const ENC_V1: u8 = 1;

/// Length of the nonce.
pub const NONCE_LEN: usize = 12;

/// Length of the authentication tag.
pub const TAG_LEN: usize = 16;

#[verifier::external_type_specification]
#[verifier::external_body]
pub struct ExDecodeError(base64::DecodeError);

// ---------------------------------------------------------------------------
// Outside functions.
// ---------------------------------------------------------------------------

/// The character of a 6-bit value in the URL-safe base64 alphabet
/// (RFC 4648, section 5).
pub open spec fn b64url_digit(v: int) -> char {
    if v < 26 {
        (65 + v) as char
    } else if v < 52 {
        (97 + (v - 26)) as char
    } else if v < 62 {
        (48 + (v - 52)) as char
    } else if v == 62 {
        '-'
    } else {
        '_'
    }
}

/// URL-safe base64 without padding: each group of three bytes gives four
/// characters, a last group of two bytes three, a last single byte two.
pub open spec fn b64_url_encode(bytes: Seq<u8>) -> Seq<char>
    decreases bytes.len(),
{
    if bytes.len() == 0 {
        Seq::empty()
    } else if bytes.len() == 1 {
        let b0 = bytes[0] as int;
        seq![b64url_digit(b0 / 4), b64url_digit((b0 % 4) * 16)]
    } else if bytes.len() == 2 {
        let b0 = bytes[0] as int;
        let b1 = bytes[1] as int;
        seq![b64url_digit(b0 / 4), b64url_digit((b0 % 4) * 16 + b1 / 16), b64url_digit((b1 % 16) * 4)]
    } else {
        let b0 = bytes[0] as int;
        let b1 = bytes[1] as int;
        let b2 = bytes[2] as int;
        seq![
            b64url_digit(b0 / 4),
            b64url_digit((b0 % 4) * 16 + b1 / 16),
            b64url_digit((b1 % 16) * 4 + b2 / 64),
            b64url_digit(b2 % 64),
        ] + b64_url_encode(bytes.subrange(3, bytes.len() as int))
    }
}

/// What `URL_SAFE_NO_PAD.decode` makes of some text (`None` for an error).
pub uninterp spec fn b64_url_decode(text: Seq<char>) -> Option<Seq<u8>>;

/// The ciphertext (with its tag) that ChaCha20-Poly1305 makes of a message.
pub uninterp spec fn aead_seal(key: Seq<u8>, nonce: Seq<u8>, msg: Seq<u8>, aad: Seq<u8>) -> Seq<u8>;

/// What ChaCha20-Poly1305 decryption makes of a ciphertext (`None` when it
/// does not authenticate).
pub uninterp spec fn aead_open(key: Seq<u8>, nonce: Seq<u8>, ct: Seq<u8>, aad: Seq<u8>) -> Option<
    Seq<u8>,
>;

/// A character of the URL-safe base64 alphabet.
pub open spec fn is_b64url_char(c: char) -> bool {
    ('A' <= c && c <= 'Z') || ('a' <= c && c <= 'z') || ('0' <= c && c <= '9') || c == '-' || c
        == '_'
}

proof fn lemma_b64url_digit(v: int)
    requires
        0 <= v < 64,
    ensures
        is_b64url_char(b64url_digit(v)),
{
}

/// URL-safe base64 is made of the URL-safe alphabet, four characters for
/// every three bytes (rounded up), and is empty only for no bytes.
pub proof fn lemma_b64_url_encode_shape(bytes: Seq<u8>)
    ensures
        forall|i: int| 0 <= i < b64_url_encode(bytes).len() ==> is_b64url_char(#[trigger] b64_url_encode(bytes)[i]),
        b64_url_encode(bytes).len() == (4 * bytes.len() + 2) / 3,
    decreases bytes.len(),
{
    if bytes.len() == 0 {
    } else {
        let b0 = bytes[0] as int;
        lemma_b64url_digit(b0 / 4);
        if bytes.len() == 1 {
            lemma_b64url_digit((b0 % 4) * 16);
        } else {
            let b1 = bytes[1] as int;
            lemma_b64url_digit((b0 % 4) * 16 + b1 / 16);
            if bytes.len() == 2 {
                lemma_b64url_digit((b1 % 16) * 4);
            } else {
                let b2 = bytes[2] as int;
                lemma_b64url_digit((b1 % 16) * 4 + b2 / 64);
                lemma_b64url_digit(b2 % 64);
                let rest = bytes.subrange(3, bytes.len() as int);
                lemma_b64_url_encode_shape(rest);
                let head = seq![
                    b64url_digit(b0 / 4),
                    b64url_digit((b0 % 4) * 16 + b1 / 16),
                    b64url_digit((b1 % 16) * 4 + b2 / 64),
                    b64url_digit(b2 % 64),
                ];
                assert(b64_url_encode(bytes) == head + b64_url_encode(rest));
                assert forall|i: int| 0 <= i < b64_url_encode(bytes).len() implies is_b64url_char(#[trigger] b64_url_encode(bytes)[i]) by {
                    if i >= 4 {
                        assert(b64_url_encode(bytes)[i] == b64_url_encode(rest)[i - 4]);
                    }
                }
            }
        }
    }
}

/// `base64::engine::general_purpose::URL_SAFE_NO_PAD.encode`. The contract
/// claims: the result is the URL-safe base64 of the bytes without padding
/// (`b64_url_encode`), and the same engine's `decode` gives the bytes back.
/// The bound on the length keeps `encoded_len` from overflowing, where the
/// crate panics.
#[verifier::external_body]
pub(crate) fn b64_encode(bytes: &[u8]) -> (r: String)
    requires
        bytes@.len() <= usize::MAX / 2,
    ensures
        r@ == b64_url_encode(bytes@),
        b64_url_decode(r@) == Some(bytes@),
{
    base64::engine::general_purpose::URL_SAFE_NO_PAD.encode(bytes)
}

/// `base64::engine::general_purpose::URL_SAFE_NO_PAD.decode`: succeeds
/// exactly when `b64_url_decode` gives bytes, and then gives those bytes.
#[verifier::external_body]
pub(crate) fn b64_decode(text: &str) -> (r: Result<Vec<u8>, base64::DecodeError>)
    ensures
        r is Ok <==> b64_url_decode(text@) is Some,
        r matches Ok(v) ==> b64_url_decode(text@) == Some(v@),
{
    base64::engine::general_purpose::URL_SAFE_NO_PAD.decode(text)
}

/// `ChaCha20Poly1305::new(key).encrypt(nonce, Payload { msg, aad })`. The
/// contract claims: the result is `aead_seal` of the arguments, it is the
/// message length plus the 16-byte tag, and decryption with the same key,
/// nonce and associated data gives the message back. The crate refuses a
/// message of `u32::MAX` 64-byte blocks or more (an error that encryption
/// does not handle), which the bound leaves out.
#[verifier::external_body]
fn aead_encrypt(key: &[u8; 32], nonce: &[u8], msg: &[u8], aad: &[u8]) -> (r: Vec<u8>)
    requires
        nonce@.len() == 12,
        msg@.len() / 64 < u32::MAX,
        msg@.len() + 16 <= usize::MAX,
    ensures
        r@ == aead_seal(key@, nonce@, msg@, aad@),
        r@.len() == msg@.len() + 16,
        aead_open(key@, nonce@, r@, aad@) == Some(msg@),
{
    let cipher = chacha20poly1305::ChaCha20Poly1305::new(chacha20poly1305::Key::from_slice(key));
    cipher.encrypt(
        chacha20poly1305::Nonce::from_slice(nonce),
        chacha20poly1305::aead::Payload { msg, aad },
    ).expect("encrypt should not fail")
}

/// `ChaCha20Poly1305::new(key).decrypt(nonce, Payload { msg: ct, aad })`:
/// succeeds exactly when `aead_open` gives a message, and then gives it.
#[verifier::external_body]
fn aead_decrypt(key: &[u8; 32], nonce: &[u8], ct: &[u8], aad: &[u8]) -> (r: Option<Vec<u8>>)
    requires
        nonce@.len() == 12,
    ensures
        r is Some <==> aead_open(key@, nonce@, ct@, aad@) is Some,
        r matches Some(v) ==> aead_open(key@, nonce@, ct@, aad@) == Some(v@),
{
    let cipher = chacha20poly1305::ChaCha20Poly1305::new(chacha20poly1305::Key::from_slice(key));
    cipher.decrypt(
        chacha20poly1305::Nonce::from_slice(nonce),
        chacha20poly1305::aead::Payload { msg: ct, aad },
    ).ok()
}

/// `n` bytes from the operating system's random source
/// (`rand_core::OsRng::try_fill_bytes` on a buffer of that length), none
/// when the source fails; nothing is stated of their values, nor of when
/// the source fails.
#[verifier::external_body]
pub(crate) fn random_bytes(n: usize) -> (r: Option<Vec<u8>>)
    ensures
        r matches Some(v) ==> v@.len() == n,
{
    let mut b = vec![0u8; n];
    match rand_core::OsRng.try_fill_bytes(&mut b) {
        Ok(()) => Some(b),
        Err(_) => None,
    }
}


// ---------------------------------------------------------------------------
// Tokens.
// ---------------------------------------------------------------------------

/// Why a token was refused.
pub enum DecryptError {
    BadBase64(base64::DecodeError),
    TooShort,
    BadVersion(u8),
    Crypto,
}

/// A refusal, without the outside error value.
pub enum DecErr {
    BadBase64,
    TooShort,
    BadVersion(u8),
    Crypto,
}

impl View for DecryptError {
    type V = DecErr;

    open spec fn view(&self) -> DecErr {
        match self {
            DecryptError::BadBase64(_) => DecErr::BadBase64,
            DecryptError::TooShort => DecErr::TooShort,
            DecryptError::BadVersion(v) => DecErr::BadVersion(*v),
            DecryptError::Crypto => DecErr::Crypto,
        }
    }
}

/// The bytes that a token stands for: `1 || nonce || ciphertext`.
pub open spec fn token_bytes(key: Seq<u8>, nonce: Seq<u8>, plaintext: Seq<u8>, aad: Seq<u8>) -> Seq<
    u8,
> {
    seq![ENC_V1] + nonce + aead_seal(key, nonce, plaintext, aad)
}

/// What decrypting a token gives.
pub open spec fn decrypt_token_spec(key: Seq<u8>, token: Seq<char>, aad: Seq<u8>) -> Result<
    Seq<u8>,
    DecErr,
> {
    match b64_url_decode(token) {
        None => Err(DecErr::BadBase64),
        Some(raw) => if raw.len() < 1 + 12 + 16 {
            Err(DecErr::TooShort)
        } else if raw[0] != ENC_V1 {
            Err(DecErr::BadVersion(raw[0]))
        } else {
            match aead_open(key, raw.subrange(1, 13), raw.skip(13), aad) {
                None => Err(DecErr::Crypto),
                Some(p) => Ok(p),
            }
        },
    }
}

/// The token of a line: trimmed, without a leading `ENC `.
pub open spec fn wire_token(line: Seq<char>) -> Seq<char> {
    let s = trim(line);
    if s.len() >= 4 && s.take(4) == "ENC "@ {
        s.skip(4)
    } else {
        s
    }
}

/// What decrypting a line of the wire gives.
pub open spec fn decrypt_wire_spec(key: Seq<u8>, line: Seq<char>, aad: Seq<u8>) -> Result<
    Seq<u8>,
    DecErr,
> {
    decrypt_token_spec(key, wire_token(line), aad)
}

/// The largest plaintext that a token can carry here.
pub open spec fn plaintext_fits(len: nat) -> bool {
    len / 64 < u32::MAX && len + 29 <= usize::MAX / 2
}

/// Encrypts a reply (or a command) under the given 12-byte nonce and encodes
/// it as a token: `1`, the nonce and the ciphertext, in URL-safe base64.
/// The token decrypts to the plaintext.
pub fn encrypt_with_nonce(key32: &[u8; 32], nonce: &[u8], plaintext: &[u8], aad: &[u8]) -> (r: String)
    requires
        nonce@.len() == 12,
        plaintext_fits(plaintext@.len()),
    ensures
        r@ == b64_url_encode(token_bytes(key32@, nonce@, plaintext@, aad@)),
        decrypt_token_spec(key32@, r@, aad@) == Ok::<Seq<u8>, DecErr>(plaintext@),
        r@.len() > 0,
        forall|i: int| 0 <= i < r@.len() ==> is_b64url_char(#[trigger] r@[i]),
{
    let ct = aead_encrypt(key32, nonce, plaintext, aad);
    let mut out: Vec<u8> = Vec::new();
    out.push(ENC_V1);
    let mut i: usize = 0;
    while i < nonce.len()
        invariant
            i <= nonce@.len() == 12,
            out@ == seq![ENC_V1] + nonce@.take(i as int),
        decreases nonce.len() - i,
    {
        out.push(nonce[i]);
        assert(nonce@.take(i + 1) =~= nonce@.take(i as int).push(nonce@[i as int]));
        i = i + 1;
    }
    let mut j: usize = 0;
    assert(nonce@.take(12) =~= nonce@);
    while j < ct.len()
        invariant
            j <= ct@.len(),
            out@.len() == 13 + j,
            out@ == seq![ENC_V1] + nonce@ + ct@.take(j as int),
            ct@.len() == plaintext@.len() + 16,
            plaintext_fits(plaintext@.len()),
        decreases ct.len() - j,
    {
        out.push(ct[j]);
        assert(ct@.take(j + 1) =~= ct@.take(j as int).push(ct@[j as int]));
        j = j + 1;
    }
    assert(ct@.take(ct@.len() as int) =~= ct@);
    assert(out@ == token_bytes(key32@, nonce@, plaintext@, aad@));
    let r = b64_encode(&out);
    proof {
        lemma_b64_url_encode_shape(out@);
        let raw = out@;
        assert(raw.subrange(1, 13) =~= nonce@);
        assert(raw.skip(13) =~= ct@);
    }
    r
}

/// Encrypts a reply (or a command) under a fresh random nonce and encodes it
/// as a token; none when the random source fails. Whatever the nonce, the
/// token decrypts to the plaintext.
pub fn encrypt_reply_to_token(key32: &[u8; 32], plaintext: &[u8], aad: &[u8]) -> (r: Option<String>)
    requires
        plaintext_fits(plaintext@.len()),
    ensures
        r matches Some(t) ==> exists|nonce: Seq<u8>|
            nonce.len() == 12 && t@ == b64_url_encode(
                #[trigger] token_bytes(key32@, nonce, plaintext@, aad@),
            ),
        r matches Some(t) ==> decrypt_token_spec(key32@, t@, aad@) == Ok::<Seq<u8>, DecErr>(plaintext@),
        r matches Some(t) ==> t@.len() > 0,
        r matches Some(t) ==> forall|i: int| 0 <= i < t@.len() ==> is_b64url_char(#[trigger] t@[i]),
{
    match random_bytes(12) {
        None => None,
        Some(nonce) => {
            let t = encrypt_with_nonce(key32, &nonce, plaintext, aad);
            assert(nonce@.len() == 12 && t@ == b64_url_encode(token_bytes(key32@, nonce@, plaintext@, aad@)));
            Some(t)
        },
    }
}

/// Decodes and decrypts a token.
pub fn decrypt_token_to_reply(key32: &[u8; 32], token_b64: &str, aad: &[u8]) -> (r: Result<
    Vec<u8>,
    DecryptError,
>)
    ensures
        match decrypt_token_spec(key32@, token_b64@, aad@) {
            Ok(p) => r matches Ok(v) && v@ == p,
            Err(e) => r matches Err(f) && f@ == e,
        },
{
    let raw = match b64_decode(token_b64) {
        Ok(v) => v,
        Err(e) => {
            return Err(DecryptError::BadBase64(e));
        },
    };
    if raw.len() < 1 + NONCE_LEN + TAG_LEN {
        return Err(DecryptError::TooShort);
    }
    let ver = raw[0];
    if ver != ENC_V1 {
        return Err(DecryptError::BadVersion(ver));
    }
    let nonce = sub_vec(&raw, 1, 1 + NONCE_LEN);
    let ct = sub_vec(&raw, 1 + NONCE_LEN, raw.len());
    assert(ct@ =~= raw@.skip(13));
    match aead_decrypt(key32, &nonce, &ct, aad) {
        Some(p) => Ok(p),
        None => Err(DecryptError::Crypto),
    }
}

/// Decrypts one line of the wire: the line is trimmed and may carry the
/// `ENC ` prefix.
pub fn decrypt_wire_line(key32: &[u8; 32], line: &str, aad: &[u8]) -> (r: Result<
    Vec<u8>,
    DecryptError,
>)
    ensures
        match decrypt_wire_spec(key32@, line@, aad@) {
            Ok(p) => r matches Ok(v) && v@ == p,
            Err(e) => r matches Err(f) && f@ == e,
        },
{
    let s = trimmed(&chars_of(line));
    let prefix = chars_of("ENC ");
    proof {
        reveal_strlit("ENC ");
        assert(prefix@.len() == 4);
    }
    let token = if crate::text::starts_with(&s, &prefix) {
        sub_vec(&s, 4, s.len())
    } else {
        sub_vec(&s, 0, s.len())
    };
    proof {
        reveal_strlit("ENC ");
        if s@.len() >= 4 && s@.take(4) == "ENC "@ {
            assert(token@ =~= s@.skip(4));
        } else {
            assert(token@ =~= s@);
        }
    }
    let t = crate::text::string_of(&token);
    decrypt_token_to_reply(key32, t.as_str(), aad)
}


/// The wire law: a token that decrypts to a plaintext, sent as the line
/// `ENC <token>` followed by a newline, decrypts to the same plaintext.
pub proof fn lemma_wire_line_roundtrip(key: Seq<u8>, token: Seq<char>, aad: Seq<u8>, p: Seq<u8>)
    requires
        decrypt_token_spec(key, token, aad) == Ok::<Seq<u8>, DecErr>(p),
        token.len() > 0,
        forall|i: int| 0 <= i < token.len() ==> is_b64url_char(#[trigger] token[i]),
    ensures
        decrypt_wire_spec(key, "ENC "@ + token + seq!['\n'], aad) == Ok::<Seq<u8>, DecErr>(p),
{
    reveal_strlit("ENC ");
    let body = "ENC "@ + token;
    let line = body + seq!['\n'];
    assert(line[0] == 'E');
    assert(trim_start(line) == line);
    assert(line.last() == '\n');
    assert(line.drop_last() =~= body);
    assert(body.last() == token[token.len() - 1]);
    assert(is_b64url_char(token[token.len() - 1]));
    assert(!is_ws(body.last()));
    assert(trim_end(body) == body);
    assert(trim_end(line) == body);
    assert(trim(line) == body);
    assert(body.take(4) =~= "ENC "@);
    assert(body.skip(4) =~= token);
}


/// The wire law for every form of the line: a token that decrypts to a
/// plaintext decrypts to it however the line carries it, with or without
/// the `ENC ` prefix and with any whitespace around (a newline at the end,
/// say).
pub proof fn lemma_wire_line_forms(
    key: Seq<u8>,
    token: Seq<char>,
    aad: Seq<u8>,
    p: Seq<u8>,
    before: Seq<char>,
    after: Seq<char>,
    prefixed: bool,
)
    requires
        decrypt_token_spec(key, token, aad) == Ok::<Seq<u8>, DecErr>(p),
        token.len() > 0,
        forall|i: int| 0 <= i < token.len() ==> is_b64url_char(#[trigger] token[i]),
        forall|i: int| 0 <= i < before.len() ==> is_ws(#[trigger] before[i]),
        forall|i: int| 0 <= i < after.len() ==> is_ws(#[trigger] after[i]),
    ensures
        decrypt_wire_spec(
            key,
            before + (if prefixed {
                "ENC "@
            } else {
                seq![]
            }) + token + after,
            aad,
        ) == Ok::<Seq<u8>, DecErr>(p),
{
    reveal_strlit("ENC ");
    let pre: Seq<char> = if prefixed {
        "ENC "@
    } else {
        seq![]
    };
    let body = pre + token;
    assert(is_b64url_char(token[0]));
    assert(is_b64url_char(token[token.len() - 1]));
    assert(body.last() == token.last());
    assert(!is_ws(body[0]));
    lemma_trim_around(before, body, after);
    assert(before + pre + token + after == before + body + after);
    if prefixed {
        assert(body.take(4) =~= "ENC "@);
        assert(body.skip(4) =~= token);
    } else {
        assert(body =~= token);
        if token.len() >= 4 {
            assert(token[3] != ' ');
            assert(token.take(4) != "ENC "@) by {
                assert("ENC "@[3] == ' ');
            }
        }
    }
}

} // verus!
