//! Fixed-width framing of share chunks and share blobs.
//!
//! A chunk is the plaintext that carries one share for one key:
//! an 8-byte big-endian key length, an 8-byte big-endian share, the key's
//! UTF-8 bytes and zero padding up to `CHUNK_LEN` bytes. A share blob is a
//! concatenation of records, each a ciphertext of `CIPHER_LEN` bytes followed
//! by a signature of `CIPHER_LEN` bytes.
use vstd::prelude::*;
use vstd::slice::{slice_subrange, slice_to_vec};
use vstd::utf8::{valid_utf8, decode_utf8};
use vstd::string::StringSliceAdditionalSpecFns;
use crate::error::ProtocolError;

verus! {

/// Bytes of plaintext in one chunk.
pub const CHUNK_LEN: usize = 245;

/// Bytes of header (key length and share) at the start of a chunk.
pub const HEADER_LEN: usize = 16;

/// The longest key, in bytes, that a chunk can carry.
pub const MAX_KEY_LEN: usize = 229;

/// Bytes of one ciphertext, and of one signature.
pub const CIPHER_LEN: usize = 256;

/// Bytes of one record of a share blob.
pub const RECORD_LEN: usize = 512;

/// The eight big-endian bytes of `x`.
pub open spec fn be_bytes(x: u64) -> Seq<u8> {
    seq![
        ((x >> 56u64) & 0xffu64) as u8,
        ((x >> 48u64) & 0xffu64) as u8,
        ((x >> 40u64) & 0xffu64) as u8,
        ((x >> 32u64) & 0xffu64) as u8,
        ((x >> 24u64) & 0xffu64) as u8,
        ((x >> 16u64) & 0xffu64) as u8,
        ((x >> 8u64) & 0xffu64) as u8,
        (x & 0xffu64) as u8,
    ]
}

/// The number whose big-endian bytes are the first eight of `b`.
pub open spec fn from_be_bytes(b: Seq<u8>) -> u64 {
    (b[0] as u64) << 56u64 | (b[1] as u64) << 48u64 | (b[2] as u64) << 40u64 | (b[3] as u64)
        << 32u64 | (b[4] as u64) << 24u64 | (b[5] as u64) << 16u64 | (b[6] as u64) << 8u64
        | (b[7] as u64)
}

/// The plaintext chunk that carries `share` for the key with UTF-8 bytes `key`.
pub open spec fn chunk_bytes(key: Seq<u8>, share: i64) -> Seq<u8> {
    be_bytes(key.len() as u64) + be_bytes(share as u64) + key + Seq::new(
        (MAX_KEY_LEN - key.len()) as nat,
        |i: int| 0u8,
    )
}

/// The key length field of a chunk.
pub open spec fn chunk_key_len(c: Seq<u8>) -> u64 {
    from_be_bytes(c.subrange(0, 8))
}

/// The share field of a chunk.
pub open spec fn chunk_share(c: Seq<u8>) -> i64 {
    from_be_bytes(c.subrange(8, 16)) as i64
}

/// Whether a chunk's header describes a key that fits in it.
pub open spec fn chunk_well_formed(c: Seq<u8>) -> bool {
    &&& c.len() >= HEADER_LEN
    &&& chunk_key_len(c) <= c.len() - HEADER_LEN
}

/// The key bytes of a well-formed chunk.
pub open spec fn chunk_key(c: Seq<u8>) -> Seq<u8> {
    c.subrange(HEADER_LEN as int, HEADER_LEN + chunk_key_len(c))
}

/// The ciphertext of record `i` of a share blob.
pub open spec fn record_cipher(blob: Seq<u8>, i: int) -> Seq<u8> {
    blob.subrange(i * RECORD_LEN, i * RECORD_LEN + CIPHER_LEN)
}

/// The signature of record `i` of a share blob.
pub open spec fn record_signature(blob: Seq<u8>, i: int) -> Seq<u8> {
    blob.subrange(i * RECORD_LEN + CIPHER_LEN, (i + 1) * RECORD_LEN)
}

/// Reading back the bytes of a number gives the number.
pub proof fn lemma_be_round_trip(x: u64)
    ensures
        from_be_bytes(be_bytes(x)) == x,
{
    let b = be_bytes(x);
    assert(((((x >> 56u64) & 0xffu64) as u8) as u64) << 56u64 | ((((x >> 48u64) & 0xffu64) as u8)
        as u64) << 48u64 | ((((x >> 40u64) & 0xffu64) as u8) as u64) << 40u64 | ((((x >> 32u64)
        & 0xffu64) as u8) as u64) << 32u64 | ((((x >> 24u64) & 0xffu64) as u8) as u64) << 24u64
        | ((((x >> 16u64) & 0xffu64) as u8) as u64) << 16u64 | ((((x >> 8u64) & 0xffu64) as u8)
        as u64) << 8u64 | (((x & 0xffu64) as u8) as u64) == x) by (bit_vector);
}

/// The big-endian bytes of `x`.
pub fn u64_to_be(x: u64) -> (r: Vec<u8>)
    ensures
        r@ == be_bytes(x),
{
    let r = vec![
        ((x >> 56u64) & 0xffu64) as u8,
        ((x >> 48u64) & 0xffu64) as u8,
        ((x >> 40u64) & 0xffu64) as u8,
        ((x >> 32u64) & 0xffu64) as u8,
        ((x >> 24u64) & 0xffu64) as u8,
        ((x >> 16u64) & 0xffu64) as u8,
        ((x >> 8u64) & 0xffu64) as u8,
        (x & 0xffu64) as u8,
    ];
    assert(r@ =~= be_bytes(x));
    r
}

/// The number whose big-endian bytes start `b` at `at`.
pub fn u64_from_be(b: &[u8], at: usize) -> (r: u64)
    requires
        at + 8 <= b@.len(),
    ensures
        r == from_be_bytes(b@.subrange(at as int, at + 8)),
{
    (b[at] as u64) << 56u64 | (b[at + 1] as u64) << 48u64 | (b[at + 2] as u64) << 40u64 | (b[at
        + 3] as u64) << 32u64 | (b[at + 4] as u64) << 24u64 | (b[at + 5] as u64) << 16u64 | (b[at
        + 6] as u64) << 8u64 | (b[at + 7] as u64)
}

/// A chunk reads back as the key and the share it was made from.
pub proof fn lemma_chunk_round_trip(key: Seq<u8>, share: i64)
    requires
        key.len() <= MAX_KEY_LEN,
    ensures
        chunk_bytes(key, share).len() == CHUNK_LEN,
        chunk_well_formed(chunk_bytes(key, share)),
        chunk_key(chunk_bytes(key, share)) == key,
        chunk_share(chunk_bytes(key, share)) == share,
{
    let c = chunk_bytes(key, share);
    lemma_be_round_trip(key.len() as u64);
    lemma_be_round_trip(share as u64);
    assert(c.subrange(0, 8) =~= be_bytes(key.len() as u64));
    assert(c.subrange(8, 16) =~= be_bytes(share as u64));
    assert(chunk_key(c) =~= key);
    assert((share as u64) as i64 == share) by (bit_vector);
}

/// Appends `src` to `dst`.
pub fn append_bytes(dst: &mut Vec<u8>, src: &[u8])
    ensures
        final(dst)@ == old(dst)@ + src@,
{
    let ghost start = dst@;
    let mut i: usize = 0;
    while i < src.len()
        invariant
            i <= src@.len(),
            dst@ == start + src@.subrange(0, i as int),
        decreases src@.len() - i,
    {
        dst.push(src[i]);
        i = i + 1;
        assert(dst@ =~= start + src@.subrange(0, i as int));
    }
    assert(src@.subrange(0, i as int) =~= src@);
}

/// Builds the chunk that carries `share` for `key`; a key longer than
/// `MAX_KEY_LEN` bytes does not fit.
pub fn encode_chunk(key: &str, share: i64) -> (r: Result<Vec<u8>, ProtocolError>)
    ensures
        match r {
            Ok(c) => key.spec_bytes().len() <= MAX_KEY_LEN && c@ == chunk_bytes(
                key.spec_bytes(),
                share,
            ),
            Err(e) => key.spec_bytes().len() > MAX_KEY_LEN && e == ProtocolError::KeyTooLong,
        },
{
    let kb = key.as_bytes();
    if kb.len() > MAX_KEY_LEN {
        return Err(ProtocolError::KeyTooLong);
    }
    let mut c = u64_to_be(kb.len() as u64);
    let s = u64_to_be(share as u64);
    append_bytes(&mut c, s.as_slice());
    append_bytes(&mut c, kb);
    let ghost filled = c@;
    let mut i: usize = kb.len();
    while i < MAX_KEY_LEN
        invariant
            kb.len() <= i <= MAX_KEY_LEN,
            c@ == filled + Seq::new((i - kb@.len()) as nat, |j: int| 0u8),
        decreases MAX_KEY_LEN - i,
    {
        c.push(0u8);
        i = i + 1;
        assert(c@ =~= filled + Seq::new((i - kb@.len()) as nat, |j: int| 0u8));
    }
    assert(c@ =~= chunk_bytes(key.spec_bytes(), share));
    Ok(c)
}

/// Relies on `String::from_utf8`: it accepts exactly the valid UTF-8 byte
/// sequences and keeps the characters they encode.
#[verifier::external_body]
pub(crate) fn string_from_utf8(b: Vec<u8>) -> (r: Option<String>)
    ensures
        r is Some <==> valid_utf8(b@),
        r matches Some(s) ==> s@ == decode_utf8(b@),
{
    String::from_utf8(b).ok()
}

/// Reads the key and the share out of a decrypted chunk.
pub fn decode_chunk(c: &[u8]) -> (r: Result<(String, i64), ProtocolError>)
    ensures
        match r {
            Ok((k, s)) => {
                &&& chunk_well_formed(c@)
                &&& valid_utf8(chunk_key(c@))
                &&& k@ == decode_utf8(chunk_key(c@))
                &&& s == chunk_share(c@)
            },
            Err(e) => {
                ||| c@.len() < HEADER_LEN && e == ProtocolError::TruncatedChunk
                ||| c@.len() >= HEADER_LEN && !chunk_well_formed(c@) && e
                    == ProtocolError::InvalidKeyLength
                ||| chunk_well_formed(c@) && !valid_utf8(chunk_key(c@)) && e
                    == ProtocolError::NotUtf8
            },
        },
{
    if c.len() < HEADER_LEN {
        return Err(ProtocolError::TruncatedChunk);
    }
    let key_len = u64_from_be(c, 0);
    if key_len > (c.len() - HEADER_LEN) as u64 {
        return Err(ProtocolError::InvalidKeyLength);
    }
    let share = u64_from_be(c, 8) as i64;
    let end = HEADER_LEN + key_len as usize;
    let key_bytes = slice_to_vec(slice_subrange(c, HEADER_LEN, end));
    match string_from_utf8(key_bytes) {
        Some(k) => Ok((k, share)),
        None => Err(ProtocolError::NotUtf8),
    }
}

/// Appends one record, a ciphertext and its signature, to a share blob.
pub fn push_record(blob: &mut Vec<u8>, cipher: &[u8], signature: &[u8])
    requires
        cipher@.len() == CIPHER_LEN,
        signature@.len() == CIPHER_LEN,
    ensures
        final(blob)@ == old(blob)@ + cipher@ + signature@,
{
    append_bytes(blob, cipher);
    append_bytes(blob, signature);
}

/// Cuts a share blob into its records; a blob that is not a whole number of
/// records is refused.
pub fn split_blob(blob: &[u8]) -> (r: Result<Vec<(Vec<u8>, Vec<u8>)>, ProtocolError>)
    ensures
        match r {
            Ok(recs) => {
                &&& blob@.len() % (RECORD_LEN as nat) == 0
                &&& recs@.len() == blob@.len() / (RECORD_LEN as nat)
                &&& forall|i: int|
                    0 <= i < recs@.len() ==> (#[trigger] recs@[i]).0@ == record_cipher(blob@, i)
                        && recs@[i].1@ == record_signature(blob@, i)
            },
            Err(e) => blob@.len() % (RECORD_LEN as nat) != 0 && e == ProtocolError::MisalignedBlob,
        },
{
    if blob.len() % RECORD_LEN != 0 {
        return Err(ProtocolError::MisalignedBlob);
    }
    let len = blob.len();
    let n = len / RECORD_LEN;
    let mut recs: Vec<(Vec<u8>, Vec<u8>)> = Vec::new();
    let mut i: usize = 0;
    while i < n
        invariant
            len == blob@.len(),
            n == blob@.len() / (RECORD_LEN as nat),
            blob@.len() % (RECORD_LEN as nat) == 0,
            i <= n,
            recs@.len() == i,
            forall|j: int|
                0 <= j < i ==> (#[trigger] recs@[j]).0@ == record_cipher(blob@, j) && recs@[j].1@
                    == record_signature(blob@, j),
        decreases n - i,
    {
        assert(i * 512 + 512 <= len) by (nonlinear_arith)
            requires
                i < n,
                n == len / 512,
                len % 512 == 0,
        ;
        let start = i * RECORD_LEN;
        let cipher = slice_to_vec(slice_subrange(blob, start, start + CIPHER_LEN));
        let signature = slice_to_vec(slice_subrange(blob, start + CIPHER_LEN, start + RECORD_LEN));
        recs.push((cipher, signature));
        i = i + 1;
    }
    Ok(recs)
}

} // verus!
