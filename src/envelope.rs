//! The share envelope: one encrypted and signed record per input key.
use vstd::prelude::*;
use crate::order::key_bytes;
use rsa::{RsaPrivateKey, RsaPublicKey};
use crate::error::ProtocolError;
use crate::frame::{
    decode_chunk, encode_chunk, push_record, split_blob, CIPHER_LEN, MAX_KEY_LEN, RECORD_LEN,
};
use crate::keys::{rsa_decrypt, rsa_encrypt, rsa_sign, rsa_verify};

verus! {

pub assume_specification<T>[ rand::random::<T> ]() -> (r: T)
    where
        rand::distributions::Standard: rand::distributions::Distribution<T>,
;

/// Some key of `local` needs more bytes than a chunk can carry.
pub open spec fn has_long_key(local: Seq<(String, i64)>) -> bool {
    exists|i: int| 0 <= i < local.len() && key_bytes(#[trigger] local[i].0@).len() > MAX_KEY_LEN
}

/// Draws `n` independent uniformly random shares.
pub fn draw_shares(n: usize) -> (r: Vec<i64>)
    ensures
        r@.len() == n,
{
    let mut r: Vec<i64> = Vec::new();
    let mut i: usize = 0;
    while i < n
        invariant
            i <= n,
            r@.len() == i,
        decreases n - i,
    {
        let s: i64 = rand::random::<i64>();
        r.push(s);
        i = i + 1;
    }
    r
}

/// Seals `shares[i]` for key `local[i].0` to `recipient`, signed with
/// `signer`: one record of `RECORD_LEN` bytes per key, in the order of
/// `local`.
pub fn seal_shares(
    local: &Vec<(String, i64)>,
    shares: &Vec<i64>,
    recipient: &RsaPublicKey,
    signer: &RsaPrivateKey,
) -> (r: Result<Vec<u8>, ProtocolError>)
    requires
        shares@.len() == local@.len(),
    ensures
        match r {
            Ok(blob) => !has_long_key(local@) && blob@.len() == RECORD_LEN * local@.len(),
            Err(e) => {
                ||| e == ProtocolError::KeyTooLong && has_long_key(local@)
                ||| e == ProtocolError::EncryptionFailed
                ||| e == ProtocolError::SigningFailed
            },
        },
        has_long_key(local@) ==> r is Err,
        local@.len() == 0 ==> (r matches Ok(b) && b@.len() == 0),
{
    let mut blob: Vec<u8> = Vec::new();
    let mut i: usize = 0;
    while i < local.len()
        invariant
            shares@.len() == local@.len(),
            i <= local@.len(),
            blob@.len() == RECORD_LEN * i,
            forall|j: int| 0 <= j < i ==> key_bytes(#[trigger] local@[j].0@).len() <= MAX_KEY_LEN,
        decreases local@.len() - i,
    {
        let chunk = match encode_chunk(local[i].0.as_str(), shares[i]) {
            Ok(c) => c,
            Err(e) => {
                return Err(e);
            },
        };
        let cipher = match rsa_encrypt(recipient, chunk.as_slice()) {
            Ok(c) => c,
            Err(_) => {
                return Err(ProtocolError::EncryptionFailed);
            },
        };
        if cipher.len() != CIPHER_LEN {
            return Err(ProtocolError::EncryptionFailed);
        }
        let signature = match rsa_sign(signer, cipher.as_slice()) {
            Ok(s) => s,
            Err(_) => {
                return Err(ProtocolError::SigningFailed);
            },
        };
        if signature.len() != CIPHER_LEN {
            return Err(ProtocolError::SigningFailed);
        }
        push_record(&mut blob, cipher.as_slice(), signature.as_slice());
        i = i + 1;
    }
    Ok(blob)
}

/// Opens a share blob from `sender`: checks each record's signature against
/// the sender's key, decrypts it with `secret` and reads its key and share.
/// A blob that is not a whole number of records is refused before anything
/// else.
pub fn open_shares(blob: &[u8], sender: &RsaPublicKey, secret: &RsaPrivateKey) -> (r: Result<
    Vec<(String, i64)>,
    ProtocolError,
>)
    ensures
        blob@.len() % (RECORD_LEN as nat) != 0 ==> r == Err::<Vec<(String, i64)>, ProtocolError>(
            ProtocolError::MisalignedBlob,
        ),
        r matches Ok(recs) ==> blob@.len() % (RECORD_LEN as nat) == 0 && recs@.len() == blob@.len()
            / (RECORD_LEN as nat),
        r matches Err(e) ==> e != ProtocolError::KeyTooLong && e != ProtocolError::UnknownKey,
        blob@.len() == 0 ==> (r matches Ok(v) && v@.len() == 0),
{
    let records = match split_blob(blob) {
        Ok(recs) => recs,
        Err(e) => {
            return Err(e);
        },
    };
    let mut out: Vec<(String, i64)> = Vec::new();
    let mut i: usize = 0;
    while i < records.len()
        invariant
            blob@.len() % (RECORD_LEN as nat) == 0,
            records@.len() == blob@.len() / (RECORD_LEN as nat),
            i <= records@.len(),
            out@.len() == i,
        decreases records@.len() - i,
    {
        let (cipher, signature) = (&records[i].0, &records[i].1);
        if !rsa_verify(sender, cipher.as_slice(), signature.as_slice()) {
            return Err(ProtocolError::BadSignature);
        }
        let chunk = match rsa_decrypt(secret, cipher.as_slice()) {
            Ok(c) => c,
            Err(_) => {
                return Err(ProtocolError::DecryptionFailed);
            },
        };
        match decode_chunk(chunk.as_slice()) {
            Ok(entry) => out.push(entry),
            Err(e) => {
                return Err(e);
            },
        }
        i = i + 1;
    }
    Ok(out)
}

} // verus!
