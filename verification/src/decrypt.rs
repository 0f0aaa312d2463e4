//! Opening a downloaded sealed box with the recipient's key pair.
//!
//! Keys arrive as base64 text; the ciphertext is a libsodium sealed box
//! (`crypto_box_seal`). Opening yields the plaintext, which must be UTF-8
//! text and is then checked against the record schema.
use crate::record::{check_outcome, convert_from_str, JsonError};
use sodiumoxide::crypto::box_::curve25519xsalsa20poly1305 as box_;
use sodiumoxide::crypto::sealedbox;
use vstd::prelude::*;
use vstd::utf8::{decode_utf8, valid_utf8};

verus! {

/// Number of bytes that a sealed box adds to its plaintext: the sender's
/// ephemeral public key (32) and the authentication tag (16).
pub const SEALBYTES: usize = 48;

/// Length in bytes of a Curve25519 public or secret key.
pub const KEYBYTES: usize = 32;

/// A Curve25519 public key.
pub struct PublicKey(pub [u8; 32]);

/// A Curve25519 secret key.
pub struct SecretKey(pub [u8; 32]);

impl View for PublicKey {
    type V = Seq<u8>;

    open spec fn view(&self) -> Seq<u8> {
        self.0@
    }
}

impl View for SecretKey {
    type V = Seq<u8>;

    open spec fn view(&self) -> Seq<u8> {
        self.0@
    }
}

/// Why the base64 decoder rejects a text, as it reports it.
#[derive(Clone, Copy, Debug, PartialEq, Eq, Structural)]
pub enum Base64Error {
    /// A byte outside the alphabet, at this offset.
    InvalidByte(usize, u8),
    /// The length leaves a 6-bit remainder.
    InvalidLength,
    /// The last symbol, at this offset, has bits that decoding would drop.
    InvalidLastSymbol(usize, u8),
}

/// Why the key pair could not be read.
#[derive(Clone, Copy, Debug, PartialEq, Eq, Structural)]
pub enum KeyError {
    /// The public key text is not base64.
    PublicKeyDecode(Base64Error),
    /// The decoded public key is not `KEYBYTES` long.
    PublicKeyLength,
    /// The secret key text is not base64.
    SecretKeyDecode(Base64Error),
    /// The decoded secret key is not `KEYBYTES` long.
    SecretKeyLength,
}

/// What decrypting a downloaded file comes to.
#[derive(Debug)]
pub enum DecryptOutcome {
    /// The ciphertext is shorter than `SEALBYTES`; nothing was opened.
    TooShort,
    /// The ciphertext was long enough to try.
    Tried {
        /// The opened plaintext, or, where opening failed, the zero-filled
        /// buffer of the plaintext's length.
        plaintext: Vec<u8>,
        /// Whether the sealed box opened.
        opened: bool,
        /// The schema check of the plaintext as text.
        records: Result<(), JsonError>,
    },
}

impl DecryptOutcome {
    /// The value that decryption reports: `Ok(true)` where the sealed box
    /// opened, `Err(())` where it was too short or did not open.
    pub fn result(&self) -> (r: Result<bool, ()>)
        ensures
            r == (match self {
                DecryptOutcome::Tried { opened: true, .. } => Ok::<bool, ()>(true),
                _ => Err::<bool, ()>(()),
            }),
    {
        match self {
            DecryptOutcome::Tried { opened: true, .. } => Ok(true),
            _ => Err(()),
        }
    }
}

/// The bytes that the base64 crate's standard decoder yields for `text`, or
/// the error with which it rejects it.
pub uninterp spec fn base64_decode(text: Seq<char>) -> Result<Seq<u8>, Base64Error>;

/// The plaintext of the sealed box `c` for the key pair `(pk, sk)`, or
/// `None` where it does not open.
pub uninterp spec fn sealed_box_open(c: Seq<u8>, pk: Seq<u8>, sk: Seq<u8>) -> Option<Seq<u8>>;

/// Calls `base64::decode` (standard alphabet) on the bytes of `text`, and
/// carries its `DecodeError` over variant by variant. Claimed: the result is
/// the one `base64_decode` names, which depends on the text alone. Left
/// unsaid: the alphabet and padding rules.
#[verifier::external_body]
fn decode_base64(text: &str) -> (r: Result<Vec<u8>, Base64Error>)
    ensures
        match r {
            Ok(v) => base64_decode(text@) == Ok::<Seq<u8>, Base64Error>(v@),
            Err(e) => base64_decode(text@) == Err::<Seq<u8>, Base64Error>(e),
        },
{
    base64::decode(text).map_err(|e| match e {
        base64::DecodeError::InvalidByte(i, b) => Base64Error::InvalidByte(i, b),
        base64::DecodeError::InvalidLength => Base64Error::InvalidLength,
        base64::DecodeError::InvalidLastSymbol(i, b) => Base64Error::InvalidLastSymbol(i, b),
    })
}

/// Calls `curve25519xsalsa20poly1305::PublicKey::from_slice`, which copies
/// the slice into a key exactly when it is 32 bytes long.
#[verifier::external_body]
fn public_key_from_slice(bs: &[u8]) -> (r: Option<PublicKey>)
    ensures
        r is Some <==> bs@.len() == KEYBYTES,
        r matches Some(k) ==> k@ == bs@,
{
    box_::PublicKey::from_slice(bs).map(|k| PublicKey(k.0))
}

/// Calls `curve25519xsalsa20poly1305::SecretKey::from_slice`, which copies
/// the slice into a key exactly when it is 32 bytes long.
#[verifier::external_body]
fn secret_key_from_slice(bs: &[u8]) -> (r: Option<SecretKey>)
    ensures
        r is Some <==> bs@.len() == KEYBYTES,
        r matches Some(k) ==> k@ == bs@,
{
    box_::SecretKey::from_slice(bs).map(|k| SecretKey(k.0))
}

/// Calls `sodiumoxide::crypto::sealedbox::open`. Claimed: the result is the
/// one `sealed_box_open` names; a ciphertext shorter than `SEALBYTES` never
/// opens; an opened plaintext is `SEALBYTES` shorter than the ciphertext.
/// Left unsaid: the cryptography itself.
#[verifier::external_body]
fn open_sealed_box(c: &[u8], pk: &PublicKey, sk: &SecretKey) -> (r: Result<Vec<u8>, ()>)
    ensures
        r is Ok <==> sealed_box_open(c@, pk@, sk@) is Some,
        r matches Ok(m) ==> sealed_box_open(c@, pk@, sk@) == Some(m@),
        c@.len() < SEALBYTES ==> r is Err,
        r matches Ok(m) ==> m@.len() + SEALBYTES == c@.len(),
{
    sealedbox::open(c, &box_::PublicKey(pk.0), &box_::SecretKey(sk.0))
}

/// Calls `std::str::from_utf8`, which succeeds exactly on valid UTF-8 and
/// then yields the decoded characters.
#[verifier::external_body]
fn utf8_text(bytes: &[u8]) -> (r: Option<&str>)
    ensures
        r is Some <==> valid_utf8(bytes@),
        r matches Some(s) ==> s@ == decode_utf8(bytes@),
{
    std::str::from_utf8(bytes).ok()
}

/// The buffer that holds the plaintext after an attempt to open a
/// ciphertext of `c_len` bytes: the plaintext where it opened, else zeros.
pub open spec fn recovered(c_len: nat, opened: Option<Seq<u8>>) -> Seq<u8> {
    match opened {
        Some(m) => m,
        None => Seq::new((c_len - SEALBYTES) as nat, |i: int| 0u8),
    }
}

/// Whether decrypting a ciphertext of `c_len` bytes with this opening
/// result meets a plaintext that is not UTF-8 text (and so cannot go on).
pub open spec fn stalls(c_len: nat, opened: Option<Seq<u8>>) -> bool {
    c_len >= SEALBYTES && !valid_utf8(recovered(c_len, opened))
}

/// The outcome of decrypting a ciphertext of `c_len` bytes with this
/// opening result, where it does not stall.
pub open spec fn outcome_matches(c_len: nat, opened: Option<Seq<u8>>, r: DecryptOutcome) -> bool {
    if c_len < SEALBYTES {
        r is TooShort
    } else {
        match r {
            DecryptOutcome::TooShort => false,
            DecryptOutcome::Tried { plaintext, opened: o, records } => {
                &&& plaintext@ == recovered(c_len, opened)
                &&& o == opened is Some
                &&& check_outcome(decode_utf8(plaintext@), records)
            },
        }
    }
}

/// A zero-filled buffer of `n` bytes.
fn zeros(n: usize) -> (r: Vec<u8>)
    ensures
        r@ == Seq::new(n as nat, |i: int| 0u8),
{
    let mut v: Vec<u8> = Vec::new();
    let mut i: usize = 0;
    while i < n
        invariant
            i <= n,
            v@ == Seq::new(i as nat, |k: int| 0u8),
        decreases n - i,
    {
        v.push(0u8);
        i = i + 1;
    }
    v
}

/// The plaintext buffer after trying to open a ciphertext of `c_len` bytes.
pub fn recovered_plaintext(c_len: usize, opened: Result<Vec<u8>, ()>) -> (r: Vec<u8>)
    requires
        c_len >= SEALBYTES,
    ensures
        r@ == recovered(c_len as nat, match opened { Ok(m) => Some(m@), Err(_) => None }),
{
    match opened {
        Ok(m) => m,
        Err(()) => zeros(c_len - SEALBYTES),
    }
}

/// Finishes decrypting a ciphertext of `c_len` bytes, given what opening it
/// gave: the plaintext buffer, whether it opened, and its schema check.
/// `None` where the buffer is not UTF-8 text, on which the tool stops.
pub fn finish_decryption(c_len: usize, opened: Result<Vec<u8>, ()>) -> (r: Option<DecryptOutcome>)
    ensures
        r is None <==> stalls(c_len as nat, match opened { Ok(m) => Some(m@), Err(_) => None }),
        r matches Some(o) ==> outcome_matches(c_len as nat, match opened { Ok(m) => Some(m@), Err(_) => None }, o),
{
    if c_len < SEALBYTES {
        return Some(DecryptOutcome::TooShort);
    }
    let was_opened = opened.is_ok();
    let plaintext = recovered_plaintext(c_len, opened);
    let records = match utf8_text(plaintext.as_slice()) {
        Some(text) => convert_from_str(text),
        None => return None,
    };
    Some(DecryptOutcome::Tried { plaintext, opened: was_opened, records })
}

/// Decrypts the sealed box `c` with the key pair `(pk, sk)`. `None` where
/// the plaintext buffer is not UTF-8 text, on which the tool stops.
pub fn decrypt(c: &[u8], pk: &PublicKey, sk: &SecretKey) -> (r: Option<DecryptOutcome>)
    ensures
        r is None <==> stalls(c@.len(), sealed_box_open(c@, pk@, sk@)),
        r matches Some(o) ==> outcome_matches(c@.len(), sealed_box_open(c@, pk@, sk@), o),
        r matches Some(DecryptOutcome::Tried { plaintext, .. }) ==> plaintext@.len() + SEALBYTES == c@.len(),
        c@.len() < SEALBYTES ==> sealed_box_open(c@, pk@, sk@) is None,
        sealed_box_open(c@, pk@, sk@) matches Some(m) ==> (valid_utf8(m) ==> (
            r matches Some(DecryptOutcome::Tried { plaintext, opened, .. }) && opened && plaintext@ == m)),
{
    let opened = open_sealed_box(c, pk, sk);
    finish_decryption(c.len(), opened)
}

/// The key pair that the base64 texts hold, where both decode to
/// `KEYBYTES` bytes.
pub open spec fn decoded_key_pair(public_key_text: Seq<char>, secret_key_text: Seq<char>) -> Option<(Seq<u8>, Seq<u8>)> {
    match (base64_decode(public_key_text), base64_decode(secret_key_text)) {
        (Ok(pk), Ok(sk)) => if pk.len() == KEYBYTES && sk.len() == KEYBYTES {
            Some((pk, sk))
        } else {
            None
        },
        _ => None,
    }
}

/// The error that reading the key pair from these texts meets first: the
/// public key is decoded and sized before the secret key is looked at, and
/// a decoding error is the decoder's own.
pub open spec fn key_error_matches(public_key_text: Seq<char>, secret_key_text: Seq<char>, e: KeyError) -> bool {
    match base64_decode(public_key_text) {
        Err(d) => e == KeyError::PublicKeyDecode(d),
        Ok(pk) => if pk.len() != KEYBYTES {
            e == KeyError::PublicKeyLength
        } else {
            match base64_decode(secret_key_text) {
                Err(d) => e == KeyError::SecretKeyDecode(d),
                Ok(sk) => sk.len() != KEYBYTES && e == KeyError::SecretKeyLength,
            }
        },
    }
}

/// Reads the key pair from its base64 texts: the public key first, then the
/// secret key; each must decode to `KEYBYTES` bytes.
pub fn decode_keys(public_key_text: &str, secret_key_text: &str) -> (r: Result<(PublicKey, SecretKey), KeyError>)
    ensures
        match decoded_key_pair(public_key_text@, secret_key_text@) {
            Some((pk, sk)) => r matches Ok((p, s)) && p@ == pk && s@ == sk,
            None => r matches Err(e) && key_error_matches(public_key_text@, secret_key_text@, e),
        },
{
    let pk_bytes = match decode_base64(public_key_text) {
        Ok(b) => b,
        Err(e) => return Err(KeyError::PublicKeyDecode(e)),
    };
    let public_key = match public_key_from_slice(pk_bytes.as_slice()) {
        Some(k) => k,
        None => return Err(KeyError::PublicKeyLength),
    };
    let sk_bytes = match decode_base64(secret_key_text) {
        Ok(b) => b,
        Err(e) => return Err(KeyError::SecretKeyDecode(e)),
    };
    let secret_key = match secret_key_from_slice(sk_bytes.as_slice()) {
        Some(k) => k,
        None => return Err(KeyError::SecretKeyLength),
    };
    Ok((public_key, secret_key))
}

/// Decrypts a downloaded file: reads the key pair from its base64 texts,
/// then opens the sealed box `encrypted` with it. `Ok(None)` where the
/// plaintext buffer is not UTF-8 text, on which the tool stops.
pub fn decrypt_function(encrypted: &[u8], public_key_text: &str, secret_key_text: &str) -> (r: Result<Option<DecryptOutcome>, KeyError>)
    ensures
        match decoded_key_pair(public_key_text@, secret_key_text@) {
            None => r matches Err(e) && key_error_matches(public_key_text@, secret_key_text@, e),
            Some((pk, sk)) => r matches Ok(o) && {
                &&& o is None <==> stalls(encrypted@.len(), sealed_box_open(encrypted@, pk, sk))
                &&& o matches Some(out) ==> outcome_matches(encrypted@.len(), sealed_box_open(encrypted@, pk, sk), out)
            },
        },
{
    let (public_key, secret_key) = decode_keys(public_key_text, secret_key_text)?;
    Ok(decrypt(encrypted, &public_key, &secret_key))
}

} // verus!
