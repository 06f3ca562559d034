//! Symmetric encryption of text values with AES-256-GCM.
//!
//! A value is serialized with bincode, sealed under the key and a fresh
//! random nonce, and stored with that nonce.
use vstd::prelude::*;
use vstd::utf8::{encode_utf8, valid_utf8};

use aead::generic_array::GenericArray;
use aead::{Aead, Error as AeadError, NewAead};
use aes_gcm::Aes256Gcm;
use rand::rngs::OsRng;
use rand::RngCore;

verus! {

broadcast use vstd::utf8::group_utf8_lib;

pub type AESKey = [u8; 32];

/// An encrypted value with the nonce it was sealed under.
#[derive(Clone, Debug, PartialEq)]
pub struct AESEncrypted {
    pub value: Vec<u8>,
    pub nonce: Vec<u8>,
}

pub struct EncryptedView {
    pub value: Seq<u8>,
    pub nonce: Seq<u8>,
}

impl View for AESEncrypted {
    type V = EncryptedView;

    open spec fn view(&self) -> EncryptedView {
        EncryptedView { value: self.value@, nonce: self.nonce@ }
    }
}

impl AESEncrypted {
    pub fn new(value: Vec<u8>, nonce: Vec<u8>) -> (r: AESEncrypted)
        ensures
            r.value@ == value@,
            r.nonce@ == nonce@,
    {
        AESEncrypted { value, nonce }
    }

    pub fn clone_encrypted(&self) -> (r: AESEncrypted)
        ensures
            r@ == self@,
    {
        AESEncrypted { value: self.value.clone(), nonce: self.nonce.clone() }
    }
}

#[verifier::external_type_specification]
#[verifier::external_body]
pub struct ExAeadError(AeadError);

#[verifier::external_type_specification]
#[verifier::external_body]
pub struct ExBincodeErrorKind(bincode::ErrorKind);

/// Why a value could not be encrypted.
#[derive(Debug)]
pub enum AESEncryptError {
    Serialization(Box<bincode::ErrorKind>),
    Encryption(AeadError),
}

/// Why a value could not be decrypted.
#[derive(Debug)]
pub enum AESDecryptError {
    Decryption(AeadError),
    Deserialization(Box<bincode::ErrorKind>),
}

/// The longest plaintext that AES-GCM seals, in bytes; a longer one is
/// refused.
pub const P_MAX: u64 = 0x10_0000_0000;

/// The shortest plaintext whose keystream runs past the 32-bit block
/// counter of AES-GCM (`P_MAX` less one tag); from here up to `P_MAX` the
/// cipher panics instead of sealing.
pub const KEYSTREAM_MAX: u64 = 0xF_FFFF_FFF0;

/// Sealing a plaintext of `len` bytes panics: it is not refused, and its
/// keystream runs past the block counter.
pub open spec fn seal_panics(len: int) -> bool {
    KEYSTREAM_MAX <= len <= P_MAX
}

/// Opening a ciphertext of `len` bytes whose tag authenticates panics: its
/// message part is not refused, and its keystream runs past the block
/// counter.
pub open spec fn open_panics(len: int) -> bool {
    P_MAX <= len <= P_MAX + 32
}

/// The eight little-endian bytes of `n`.
pub open spec fn u64_le_bytes(n: u64) -> Seq<u8> {
    seq![
        (n & 0xff) as u8,
        ((n >> 8u64) & 0xff) as u8,
        ((n >> 16u64) & 0xff) as u8,
        ((n >> 24u64) & 0xff) as u8,
        ((n >> 32u64) & 0xff) as u8,
        ((n >> 40u64) & 0xff) as u8,
        ((n >> 48u64) & 0xff) as u8,
        ((n >> 56u64) & 0xff) as u8,
    ]
}

/// The number whose little-endian bytes begin `b`.
pub open spec fn u64_from_le(b: Seq<u8>) -> u64
    recommends
        b.len() >= 8,
{
    le_u64_of(b[0], b[1], b[2], b[3], b[4], b[5], b[6], b[7])
}

pub open spec fn le_u64_of(b0: u8, b1: u8, b2: u8, b3: u8, b4: u8, b5: u8, b6: u8, b7: u8) -> u64 {
    (b0 as u64) | ((b1 as u64) << 8u64) | ((b2 as u64) << 16u64) | ((b3 as u64) << 24u64) | ((
    b4 as u64) << 32u64) | ((b5 as u64) << 40u64) | ((b6 as u64) << 48u64) | ((b7 as u64)
        << 56u64)
}

pub proof fn lemma_le_roundtrip(n: u64)
    ensures
        u64_from_le(u64_le_bytes(n)) == n,
{
    let b = u64_le_bytes(n);
    let (b0, b1, b2, b3, b4, b5, b6, b7) = (b[0], b[1], b[2], b[3], b[4], b[5], b[6], b[7]);
    assert(le_u64_of(
        (n & 0xff) as u8,
        ((n >> 8u64) & 0xff) as u8,
        ((n >> 16u64) & 0xff) as u8,
        ((n >> 24u64) & 0xff) as u8,
        ((n >> 32u64) & 0xff) as u8,
        ((n >> 40u64) & 0xff) as u8,
        ((n >> 48u64) & 0xff) as u8,
        ((n >> 56u64) & 0xff) as u8,
    ) == n) by (bit_vector);
}

/// What bincode writes for a string: its UTF-8 length as eight little-endian
/// bytes, then its UTF-8 bytes.
pub open spec fn bincode_string(s: Seq<char>) -> Seq<u8> {
    u64_le_bytes(encode_utf8(s).len() as u64) + encode_utf8(s)
}

/// `b` begins with a length that the bytes behind it cover, and those bytes
/// are UTF-8.
pub open spec fn bincode_string_decodes(b: Seq<u8>) -> bool {
    b.len() >= 8 && u64_from_le(b) <= b.len() - 8 && valid_utf8(b.subrange(8, 8 + u64_from_le(b)))
}

/// The UTF-8 bytes of the string that `b` holds.
pub open spec fn bincode_payload(b: Seq<u8>) -> Seq<u8> {
    b.subrange(8, 8 + u64_from_le(b))
}

/// What AES-256-GCM seals `plaintext` into under `key` and `nonce`, with no
/// associated data: the ciphertext followed by the tag.
pub uninterp spec fn aes256gcm_seal(key: AESKey, nonce: Seq<u8>, plaintext: Seq<u8>) -> Seq<u8>;

/// What AES-256-GCM opens `ciphertext` into under `key` and `nonce`, with no
/// associated data; `None` where the tag does not authenticate it.
pub uninterp spec fn aes256gcm_open(key: AESKey, nonce: Seq<u8>, ciphertext: Seq<u8>) -> Option<
    Seq<u8>,
>;

/// The ciphertext that `encrypt` stores for string `s`.
pub open spec fn sealed_string(key: AESKey, nonce: Seq<u8>, s: Seq<char>) -> Seq<u8> {
    aes256gcm_seal(key, nonce, bincode_string(s))
}

/// The string that `decrypt` gives back for `e`, if any.
pub open spec fn opened_string(key: AESKey, e: EncryptedView) -> Option<Seq<char>> {
    match aes256gcm_open(key, e.nonce, e.value) {
        Some(p) => if bincode_string_decodes(p) {
            Some(vstd::utf8::decode_utf8(bincode_payload(p)))
        } else {
            None
        },
        None => None,
    }
}

/// Fills `buf` from the operating system's random source with
/// `rand::rngs::OsRng::fill_bytes`. Claims only that the length stays;
/// the bytes are random. `fill_bytes` panics where the OS source fails.
#[verifier::external_body]
fn os_random_fill(buf: &mut Vec<u8>)
    ensures
        final(buf)@.len() == old(buf)@.len(),
{
    OsRng.fill_bytes(buf.as_mut_slice())
}

/// Seals `plaintext` with `Aes256Gcm::new` and `Aead::encrypt` (aes-gcm
/// 0.9, aead 0.4), with no associated data. The source refuses a plaintext
/// longer than `P_MAX` bytes, panics on one of `KEYSTREAM_MAX` to `P_MAX`
/// bytes (the counter check of `ctr` 0.8 fails inside `apply_keystream`),
/// and seals any shorter one; the ciphertext is named, and it is as long as
/// the plaintext plus the 16-byte tag that `encrypt_in_place` appends.
#[verifier::external_body]
#[allow(deprecated)]
fn aes256gcm_encrypt(key: &AESKey, nonce: &[u8; 12], plaintext: &Vec<u8>) -> (r: Result<
    Vec<u8>,
    AeadError,
>)
    requires
        !seal_panics(plaintext@.len() as int),
    ensures
        r is Ok <==> plaintext@.len() < KEYSTREAM_MAX,
        r matches Ok(c) ==> c@ == aes256gcm_seal(*key, nonce@, plaintext@),
        r matches Ok(c) ==> c@.len() == plaintext@.len() + 16,
{
    Aes256Gcm::new(GenericArray::from_slice(key)).encrypt(
        GenericArray::from_slice(nonce),
        aead::Payload { msg: plaintext.as_slice(), aad: &[] },
    )
}

/// Opens `ciphertext` with `Aes256Gcm::new` and `Aead::decrypt` (aes-gcm
/// 0.9, aead 0.4), with no associated data. The result is named; beside the
/// name stands the defining property of the cipher: what was sealed under a
/// key and nonce opens under them to the same plaintext. That a forged
/// ciphertext is refused is not stated. `from_slice` panics on a nonce that
/// is not 12 bytes long, and opening panics where the ciphertext is
/// `P_MAX` to `P_MAX + 32` bytes long and its tag authenticates (the
/// message part's keystream runs past the block counter).
#[verifier::external_body]
#[allow(deprecated)]
fn aes256gcm_decrypt(key: &AESKey, nonce: &Vec<u8>, ciphertext: &Vec<u8>) -> (r: Result<
    Vec<u8>,
    AeadError,
>)
    requires
        nonce@.len() == 12,
        !open_panics(ciphertext@.len() as int),
    ensures
        r is Ok <==> aes256gcm_open(*key, nonce@, ciphertext@) is Some,
        r matches Ok(p) ==> aes256gcm_open(*key, nonce@, ciphertext@) == Some(p@),
        forall|p: Seq<u8>|
            p.len() < KEYSTREAM_MAX && ciphertext@ == aes256gcm_seal(*key, nonce@, p) ==> r is Ok,
        forall|p: Seq<u8>|
            p.len() < KEYSTREAM_MAX && ciphertext@ == aes256gcm_seal(*key, nonce@, p) ==> (r matches Ok(
                q,
            ) ==> q@ == p),
{
    Aes256Gcm::new(GenericArray::from_slice(key)).decrypt(
        GenericArray::from_slice(nonce.as_slice()),
        aead::Payload { msg: ciphertext.as_slice(), aad: &[] },
    )
}

/// Serializes a string with `bincode::serialize` (bincode 1.3): the source
/// writes the UTF-8 length as a little-endian u64, then the UTF-8 bytes, and
/// cannot fail for a string under its default options.
#[verifier::external_body]
fn bincode_serialize_string(s: &String) -> (r: Result<Vec<u8>, Box<bincode::ErrorKind>>)
    ensures
        r is Ok,
        r matches Ok(v) ==> v@ == bincode_string(s@),
{
    bincode::serialize(s)
}

/// Deserializes a string with `bincode::deserialize` (bincode 1.3): the
/// source reads a little-endian u64 length, takes that many bytes (trailing
/// bytes are allowed) and accepts them where they are UTF-8.
#[verifier::external_body]
fn bincode_deserialize_string(b: &Vec<u8>) -> (r: Result<String, Box<bincode::ErrorKind>>)
    ensures
        r is Ok <==> bincode_string_decodes(b@),
        r matches Ok(s) ==> encode_utf8(s@) == bincode_payload(b@),
{
    bincode::deserialize(b.as_slice())
}

/// A fresh random key.
pub fn generate_key() -> (key: AESKey) {
    let mut random_bytes: Vec<u8> = vec![0u8; 32];
    os_random_fill(&mut random_bytes);
    let mut key: AESKey = [0u8; 32];
    let mut i: usize = 0;
    while i < 32
        invariant
            random_bytes@.len() == 32,
            i <= 32,
        decreases 32 - i,
    {
        key[i] = random_bytes[i];
        i = i + 1;
    }
    key
}

/// A fresh random nonce.
fn generate_nonce() -> (nonce: [u8; 12]) {
    let mut random_bytes: Vec<u8> = vec![0u8; 12];
    os_random_fill(&mut random_bytes);
    let mut nonce: [u8; 12] = [0u8; 12];
    let mut i: usize = 0;
    while i < 12
        invariant
            random_bytes@.len() == 12,
            i <= 12,
        decreases 12 - i,
    {
        nonce[i] = random_bytes[i];
        i = i + 1;
    }
    nonce
}

fn array_to_vec(a: &[u8; 12]) -> (v: Vec<u8>)
    ensures
        v@ == a@,
{
    let mut v: Vec<u8> = Vec::new();
    let mut i: usize = 0;
    while i < 12
        invariant
            i <= 12,
            v@ == a@.subrange(0, i as int),
        decreases 12 - i,
    {
        v.push(a[i]);
        i = i + 1;
        assert(v@ =~= a@.subrange(0, i as int));
    }
    v
}

/// Encrypts `to_encrypt` under `key` with a fresh nonce.
///
/// It fails exactly where the serialized value is longer than AES-GCM
/// seals; otherwise the stored value is the sealed serialization, 16 bytes
/// longer than the serialization. A serialized value of `KEYSTREAM_MAX` to
/// `P_MAX` bytes makes the cipher panic, and is left out.
pub fn encrypt(key: &AESKey, to_encrypt: &String) -> (r: Result<AESEncrypted, AESEncryptError>)
    requires
        !seal_panics(bincode_string(to_encrypt@).len() as int),
    ensures
        r is Ok <==> bincode_string(to_encrypt@).len() < KEYSTREAM_MAX,
        r matches Err(e) ==> e is Encryption,
        r matches Ok(e) ==> e.nonce@.len() == 12 && e.value@ == sealed_string(
            *key,
            e.nonce@,
            to_encrypt@,
        ),
        r matches Ok(e) ==> e.value@.len() == bincode_string(to_encrypt@).len() + 16,
{
    let serialized = match bincode_serialize_string(to_encrypt) {
        Ok(v) => v,
        Err(e) => {
            return Err(AESEncryptError::Serialization(e));
        },
    };
    let nonce = generate_nonce();
    let encrypted = match aes256gcm_encrypt(key, &nonce, &serialized) {
        Ok(c) => c,
        Err(e) => {
            return Err(AESEncryptError::Encryption(e));
        },
    };
    Ok(AESEncrypted::new(encrypted, array_to_vec(&nonce)))
}

/// Decrypts `to_decrypt` under `key`.
///
/// It succeeds exactly where the ciphertext opens under the key and holds a
/// serialized string, and then gives that string. In particular what
/// `encrypt` stored under a key decrypts under the same key to the value
/// that was encrypted.
pub fn decrypt(key: &AESKey, to_decrypt: &AESEncrypted) -> (r: Result<String, AESDecryptError>)
    requires
        to_decrypt.nonce@.len() == 12,
        !open_panics(to_decrypt.value@.len() as int),
    ensures
        r is Ok <==> opened_string(*key, to_decrypt@) is Some,
        r matches Ok(s) ==> opened_string(*key, to_decrypt@) == Some(s@),
        r matches Err(e) ==> (e is Decryption <==> aes256gcm_open(
            *key,
            to_decrypt.nonce@,
            to_decrypt.value@,
        ) is None),
        forall|s: Seq<char>|
            bincode_string(s).len() < KEYSTREAM_MAX && to_decrypt.value@ == #[trigger] sealed_string(
                *key,
                to_decrypt.nonce@,
                s,
            ) ==> (r matches Ok(t) && t@ == s),
{
    let decrypted = match aes256gcm_decrypt(key, &to_decrypt.nonce, &to_decrypt.value) {
        Ok(p) => p,
        Err(e) => {
            return Err(AESDecryptError::Decryption(e));
        },
    };
    proof {
        assert forall|s: Seq<char>|
            bincode_string(s).len() < KEYSTREAM_MAX && to_decrypt.value@ == #[trigger] sealed_string(
                *key,
                to_decrypt.nonce@,
                s,
            ) implies bincode_string_decodes(decrypted@) && decode_utf8_of_payload(decrypted@)
            == s by {
            lemma_bincode_string_decodes(s);
        }
    }
    match bincode_deserialize_string(&decrypted) {
        Ok(s) => {
            proof {
                vstd::utf8::encode_utf8_decode_utf8(s@);
            }
            Ok(s)
        },
        Err(e) => Err(AESDecryptError::Deserialization(e)),
    }
}

spec fn decode_utf8_of_payload(b: Seq<u8>) -> Seq<char> {
    vstd::utf8::decode_utf8(bincode_payload(b))
}

/// A string's bincode form decodes back to the string.
pub proof fn lemma_bincode_string_decodes(s: Seq<char>)
    requires
        bincode_string(s).len() <= P_MAX,
    ensures
        bincode_string_decodes(bincode_string(s)),
        bincode_payload(bincode_string(s)) == encode_utf8(s),
        vstd::utf8::decode_utf8(bincode_payload(bincode_string(s))) == s,
{
    let e = encode_utf8(s);
    let b = bincode_string(s);
    lemma_le_roundtrip(e.len() as u64);
    assert(b.subrange(0, 8) == u64_le_bytes(e.len() as u64));
    assert(u64_from_le(b) == u64_from_le(u64_le_bytes(e.len() as u64)));
    assert(b.subrange(8, 8 + e.len() as int) =~= e);
    vstd::utf8::encode_utf8_valid_utf8(s);
    vstd::utf8::encode_utf8_decode_utf8(s);
}

} // verus!
