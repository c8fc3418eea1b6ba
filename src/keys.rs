//! Key material: participant identities, their display fingerprint, and the
//! RSA and hashing operations that the share envelope relies on.
use vstd::prelude::*;
use vstd::utf8::{
    encode_utf8, encode_utf8_decode_utf8, encode_utf8_valid_utf8, is_ascii_chars,
    is_ascii_chars_encode_utf8,
};
use rsa::pkcs1v15::{Signature, SigningKey, VerifyingKey};
use rsa::pkcs8::{DecodePublicKey, EncodePublicKey, LineEnding};
use rsa::signature::{RandomizedSigner, SignatureEncoding, Verifier};
use rsa::sha2::Sha256;
use rsa::{Pkcs1v15Encrypt, RsaPrivateKey, RsaPublicKey};
use crate::error::ProtocolError;
use crate::frame::string_from_utf8;

verus! {

#[verifier::external_type_specification]
#[verifier::external_body]
pub struct ExRsaPublicKey(rsa::RsaPublicKey);

#[verifier::external_type_specification]
#[verifier::external_body]
pub struct ExRsaPrivateKey(rsa::RsaPrivateKey);

#[verifier::external_type_specification]
#[verifier::external_body]
pub struct ExRsaError(rsa::Error);

#[verifier::external_type_specification]
#[verifier::external_body]
pub struct ExSpkiError(rsa::pkcs8::spki::Error);

#[verifier::external_type_specification]
#[verifier::external_body]
pub struct ExSignatureError(rsa::signature::Error);

/// What BLAKE3 makes of a byte string.
pub uninterp spec fn blake3_of(b: Seq<u8>) -> Seq<u8>;

/// Relies on `blake3::hash`: the 32-byte BLAKE3 digest of `b`.
#[verifier::external_body]
fn blake3_digest(b: &[u8]) -> (r: Vec<u8>)
    ensures
        r@ == blake3_of(b@),
        r@.len() == 32,
{
    blake3::hash(b).as_bytes().to_vec()
}

/// Relies on `DecodePublicKey::from_public_key_pem` for `RsaPublicKey`: reads
/// an RSA public key from its PEM text.
#[verifier::external_body]
pub(crate) fn rsa_from_pem(pem: &str) -> (r: Result<RsaPublicKey, rsa::pkcs8::spki::Error>) {
    RsaPublicKey::from_public_key_pem(pem)
}

/// Relies on `EncodePublicKey::to_public_key_pem` for `RsaPublicKey`: writes
/// the key as PEM text with the platform's default line ending.
#[verifier::external_body]
pub(crate) fn rsa_to_pem(key: &RsaPublicKey) -> (r: Result<String, rsa::pkcs8::spki::Error>) {
    key.to_public_key_pem(LineEnding::default())
}

/// Relies on `RsaPublicKey::encrypt` with PKCS#1 v1.5 padding and a fresh
/// thread-local random generator; the ciphertext is random.
#[verifier::external_body]
pub(crate) fn rsa_encrypt(key: &RsaPublicKey, msg: &[u8]) -> (r: Result<Vec<u8>, rsa::Error>) {
    key.encrypt(&mut rand::thread_rng(), Pkcs1v15Encrypt, msg)
}

/// Relies on `RsaPrivateKey::decrypt` with PKCS#1 v1.5 padding.
#[verifier::external_body]
pub(crate) fn rsa_decrypt(key: &RsaPrivateKey, cipher: &[u8]) -> (r: Result<Vec<u8>, rsa::Error>) {
    key.decrypt(Pkcs1v15Encrypt, cipher)
}

/// Relies on `RandomizedSigner::try_sign_with_rng` of a PKCS#1 v1.5 SHA-256
/// signing key, returning the signature's bytes.
#[verifier::external_body]
pub(crate) fn rsa_sign(key: &RsaPrivateKey, msg: &[u8]) -> (r: Result<Vec<u8>, rsa::signature::Error>) {
    match SigningKey::<Sha256>::new(key.clone()).try_sign_with_rng(&mut rand::thread_rng(), msg) {
        Ok(s) => Ok(s.to_vec()),
        Err(e) => Err(e),
    }
}

/// Relies on `Verifier::verify` of a PKCS#1 v1.5 SHA-256 verifying key, with
/// the signature read by `Signature::try_from`; any failure reads as `false`.
#[verifier::external_body]
pub(crate) fn rsa_verify(key: &RsaPublicKey, msg: &[u8], signature: &[u8]) -> (r: bool) {
    match Signature::try_from(signature) {
        Ok(s) => VerifyingKey::<Sha256>::new(key.clone()).verify(msg, &s).is_ok(),
        Err(_) => false,
    }
}

/// The lowercase hexadecimal digit for `n < 16`.
pub open spec fn hex_digit(n: int) -> char {
    seq!['0', '1', '2', '3', '4', '5', '6', '7', '8', '9', 'a', 'b', 'c', 'd', 'e', 'f'][n]
}

/// Group `g` of a fingerprint: bytes `4g .. 4g + 4` of the digest read as a
/// little-endian 32-bit word, written as eight lowercase hex digits.
pub open spec fn hex_group(d: Seq<u8>, g: int) -> Seq<char> {
    Seq::new(
        8,
        |i: int|
            {
                let b = d[4 * g + 3 - i / 2] as int;
                hex_digit(if i % 2 == 0 { b / 16 } else { b % 16 })
            },
    )
}

/// The display form of a digest: its first four little-endian 32-bit words
/// in hex, separated by spaces.
pub open spec fn fingerprint_text(d: Seq<u8>) -> Seq<char> {
    hex_group(d, 0) + seq![' '] + hex_group(d, 1) + seq![' '] + hex_group(d, 2) + seq![' ']
        + hex_group(d, 3)
}

/// The ASCII code of a hex digit.
fn hex_char(n: u8) -> (r: u8)
    requires
        n < 16,
    ensures
        r == hex_digit(n as int) as u8,
{
    if n < 10 {
        48 + n
    } else {
        87 + n
    }
}

/// Writes the fingerprint of a digest of at least 16 bytes.
pub fn fingerprint_of_digest(d: &[u8]) -> (r: String)
    requires
        d@.len() >= 16,
    ensures
        r@ == fingerprint_text(d@),
{
    let ghost text = fingerprint_text(d@);
    let mut out: Vec<u8> = Vec::new();
    let mut g: usize = 0;
    while g < 4
        invariant
            d@.len() >= 16,
            g <= 4,
            text == fingerprint_text(d@),
            out@.len() == 9 * g - if g > 0 { 1int } else { 0int },
            forall|k: int| 0 <= k < out@.len() ==> #[trigger] out@[k] == text[k] as u8,
        decreases 4 - g,
    {
        if g > 0 {
            out.push(32u8);
        }
        let ghost base = out@.len();
        let mut i: usize = 0;
        while i < 8
            invariant
                d@.len() >= 16,
                g < 4,
                i <= 8,
                text == fingerprint_text(d@),
                base == 9 * g,
                out@.len() == base + i,
                forall|k: int| 0 <= k < base ==> #[trigger] out@[k] == text[k] as u8,
                forall|k: int| 0 <= k < i ==> #[trigger] out@[base + k] == hex_group(d@, g as int)[k] as u8,
            decreases 8 - i,
        {
            let b = d[4 * g + 3 - i / 2];
            let n = if i % 2 == 0 { b / 16 } else { b % 16 };
            out.push(hex_char(n));
            i = i + 1;
        }
        assert forall|k: int| 0 <= k < out@.len() implies #[trigger] out@[k] == text[k] as u8 by {
            if k >= base {
                assert(out@[base + (k - base)] == hex_group(d@, g as int)[k - base] as u8);
            }
        }
        g = g + 1;
    }
    proof {
        assert(is_ascii_chars(text));
        is_ascii_chars_encode_utf8(text);
        assert(out@ =~= encode_utf8(text));
        encode_utf8_valid_utf8(text);
        encode_utf8_decode_utf8(text);
    }
    match string_from_utf8(out) {
        Some(s) => s,
        None => String::new(),
    }
}

/// A participant's identity: its RSA public key in PEM text.
pub struct PublicKey {
    pub pem: String,
}

impl PublicKey {
    /// The identity of an RSA public key.
    pub fn from_rsa(key: &RsaPublicKey) -> (r: Result<PublicKey, ProtocolError>)
        ensures
            r matches Err(e) ==> e == ProtocolError::InvalidPublicKey,
    {
        match rsa_to_pem(key) {
            Ok(pem) => Ok(PublicKey { pem }),
            Err(_) => Err(ProtocolError::InvalidPublicKey),
        }
    }

    /// The RSA key that this identity holds.
    pub fn to_rsa(&self) -> (r: Result<RsaPublicKey, ProtocolError>)
        ensures
            r matches Err(e) ==> e == ProtocolError::InvalidPublicKey,
    {
        match rsa_from_pem(self.pem.as_str()) {
            Ok(k) => Ok(k),
            Err(_) => Err(ProtocolError::InvalidPublicKey),
        }
    }

    /// Whether two identities are the same key.
    pub fn same(&self, other: &PublicKey) -> (r: bool)
        ensures
            r == (self.pem@ == other.pem@),
    {
        self.pem == other.pem
    }

    /// The short display form of this identity: the BLAKE3 digest of its PEM
    /// text, written as four hex groups.
    pub fn fingerprint(&self) -> (r: String)
        ensures
            r@ == fingerprint_text(blake3_of(encode_utf8(self.pem@))),
    {
        let d = blake3_digest(self.pem.as_str().as_bytes());
        fingerprint_of_digest(d.as_slice())
    }
}

impl Clone for PublicKey {
    fn clone(&self) -> (r: PublicKey)
        ensures
            r == *self,
    {
        PublicKey { pem: self.pem.clone() }
    }
}

} // verus!
