//! AES-256-GCM encryption of cached values, in the text form the cache
//! stores: the base64 of the 12-byte nonce (always 16 characters) followed
//! by the base64 of the ciphertext.
use vstd::prelude::*;
use vstd::string::*;
use vstd::utf8::*;
use crate::errors::{CacheError, EncryptionError};
use aes_gcm::aead::generic_array::GenericArray;
use aes_gcm::aead::{Aead, NewAead};
use aes_gcm::Aes256Gcm;
use rand::RngCore;

verus! {

broadcast use vstd::array::group_array_axioms;

/// Largest plaintext, in bytes, that AES-GCM accepts (2^36).
pub const MAX_PLAINTEXT_LEN: u64 = 68719476736u64;

/// Plaintexts (and ciphertext bodies) of at least this many bytes, 2^36 - 16,
/// need more blocks than AES-GCM's 32-bit block counter can count.
pub const COUNTER_LIMIT_LEN: u64 = 68719476720u64;

/// Plaintexts of these lengths are either taken by AES-GCM or refused by it;
/// those of 2^36 - 16 up to 2^36 bytes overflow its block counter.
pub open spec fn plaintext_len_handled(n: nat) -> bool {
    n < COUNTER_LIMIT_LEN || n > MAX_PLAINTEXT_LEN
}

/// Ciphertexts (with tag) of these lengths are opened or refused by AES-GCM
/// without reaching a body of 2^36 - 16 up to 2^36 + 16 bytes, which would
/// overflow its block counter once the tag checks out.
pub open spec fn ciphertext_len_handled(n: nat) -> bool {
    n < MAX_PLAINTEXT_LEN || n > MAX_PLAINTEXT_LEN + 32
}

/// Length in bytes of an AES-256 key.
pub const KEY_LEN: usize = 32;

/// Length in bytes of an AES-GCM nonce.
pub const NONCE_LEN: usize = 12;

/// Length in characters of the base64 text of a nonce.
pub const NONCE_TEXT_LEN: usize = 16;

/// The ciphertext (with its 16-byte tag appended) that AES-256-GCM makes of
/// `plaintext` under `key` and `nonce`, with no associated data.
pub uninterp spec fn aes256gcm_seal(key: Seq<u8>, nonce: Seq<u8>, plaintext: Seq<u8>) -> Seq<u8>;

/// The plaintext that AES-256-GCM recovers from `ciphertext` under `key` and
/// `nonce`, or `None` where authentication fails.
pub uninterp spec fn aes256gcm_open(key: Seq<u8>, nonce: Seq<u8>, ciphertext: Seq<u8>) -> Option<Seq<u8>>;

/// The standard, padded base64 text of `bytes`.
pub uninterp spec fn base64_encode(bytes: Seq<u8>) -> Seq<char>;

/// The bytes that standard base64 decoding makes of `text`, or `None` where
/// `text` is not valid base64.
pub uninterp spec fn base64_decode(text: Seq<char>) -> Option<Seq<u8>>;

/// Length of the padded base64 text of `n` bytes.
pub open spec fn base64_len(n: nat) -> nat {
    4 * ((n + 2) / 3)
}

/// The text that encrypting `value` under `key` with `nonce` yields.
pub open spec fn sealed_text(key: Seq<u8>, nonce: Seq<u8>, value: Seq<char>) -> Seq<char> {
    base64_encode(nonce) + base64_encode(aes256gcm_seal(key, nonce, encode_utf8(value)))
}

/// Length of the text that encrypting a value of `n` UTF-8 bytes yields:
/// the 16-character nonce text, then the base64 of the `n + 16` bytes of
/// ciphertext and tag.
pub open spec fn sealed_text_len(n: nat) -> nat {
    NONCE_TEXT_LEN as nat + base64_len(n + 16)
}

/// `text` is what encrypting `value` under `key` with `nonce` produced: the
/// base64 of the 12-byte nonce (16 characters) followed by the base64 of
/// the sealed UTF-8 bytes of `value`.
pub open spec fn sealed_with(key: Seq<u8>, nonce: Seq<u8>, value: Seq<char>, text: Seq<char>) -> bool {
    &&& nonce.len() == NONCE_LEN
    &&& base64_encode(nonce).len() == NONCE_TEXT_LEN
    &&& encode_utf8(value).len() < COUNTER_LIMIT_LEN
    &&& aes256gcm_seal(key, nonce, encode_utf8(value)).len() == encode_utf8(value).len() + 16
    &&& text == sealed_text(key, nonce, value)
    &&& text.len() == sealed_text_len(encode_utf8(value).len())
}

/// `text` is what encrypting `value` under `key` produced, for some nonce.
pub open spec fn is_ciphertext_of(key: Seq<u8>, text: Seq<char>, value: Seq<char>) -> bool {
    exists|nonce: Seq<u8>| #[trigger] sealed_with(key, nonce, value, text)
}

/// A value never has more characters than UTF-8 bytes.
pub proof fn lemma_encode_utf8_len(chars: Seq<char>)
    ensures
        encode_utf8(chars).len() >= chars.len(),
    decreases chars.len(),
{
    if chars.len() > 0 {
        lemma_encode_utf8_len(chars.drop_first());
    }
}

/// An encrypted text is always longer than the value it holds, so it is
/// never the value itself.
pub proof fn lemma_ciphertext_is_not_value(key: Seq<u8>, text: Seq<char>, value: Seq<char>)
    requires
        is_ciphertext_of(key, text, value),
    ensures
        text.len() > value.len(),
        text != value,
{
    let nonce = choose|nonce: Seq<u8>| #[trigger] sealed_with(key, nonce, value, text);
    lemma_encode_utf8_len(value);
}

/// `blob` is the nonce followed by what AES-256-GCM seals `data` into
/// under `key` and that nonce.
pub open spec fn sealed_bytes_with(key: Seq<u8>, nonce: Seq<u8>, data: Seq<u8>, blob: Seq<u8>) -> bool {
    &&& nonce.len() == NONCE_LEN
    &&& data.len() < COUNTER_LIMIT_LEN
    &&& aes256gcm_seal(key, nonce, data).len() == data.len() + 16
    &&& blob == nonce + aes256gcm_seal(key, nonce, data)
}

/// `blob` is what encrypting the bytes `data` under `key` produced, for
/// some nonce.
pub open spec fn is_sealed_bytes_of(key: Seq<u8>, blob: Seq<u8>, data: Seq<u8>) -> bool {
    exists|nonce: Seq<u8>| #[trigger] sealed_bytes_with(key, nonce, data, blob)
}

/// What decrypting the bytes `blob` under `key` gives: the first 12 bytes
/// are the nonce, the rest the ciphertext with its tag.
pub open spec fn opened_bytes(key: Seq<u8>, blob: Seq<u8>) -> Option<Seq<u8>> {
    if blob.len() < NONCE_LEN {
        None
    } else {
        let ciphertext = blob.subrange(NONCE_LEN as int, blob.len() as int);
        if !ciphertext_len_handled(ciphertext.len()) {
            None
        } else {
            aes256gcm_open(key, blob.subrange(0, NONCE_LEN as int), ciphertext)
        }
    }
}

/// What decrypting `text` under `key` gives: `None` where any step fails.
pub open spec fn opened_text(key: Seq<u8>, text: Seq<char>) -> Option<Seq<char>> {
    if text.len() < NONCE_TEXT_LEN {
        None
    } else {
        match (
            base64_decode(text.subrange(0, NONCE_TEXT_LEN as int)),
            base64_decode(text.subrange(NONCE_TEXT_LEN as int, text.len() as int)),
        ) {
            (Some(nonce), Some(ciphertext)) => {
                if nonce.len() != NONCE_LEN || !ciphertext_len_handled(ciphertext.len()) {
                    None
                } else {
                    match aes256gcm_open(key, nonce, ciphertext) {
                        Some(plain) => if valid_utf8(plain) {
                            Some(decode_utf8(plain))
                        } else {
                            None
                        },
                        None => None,
                    }
                }
            },
            _ => None,
        }
    }
}

/// `Aes256Gcm::new_from_slice` (trait `NewAead` of aead 0.4): it accepts
/// exactly the keys of 32 bytes and refuses the others with `aead::Error`.
#[verifier::external_body]
fn check_aes256_key(key: &[u8]) -> (r: Result<(), aes_gcm::aead::Error>)
    ensures
        r is Ok <==> key@.len() == KEY_LEN,
{
    match Aes256Gcm::new_from_slice(key) {
        Ok(_) => Ok(()),
        Err(e) => Err(e),
    }
}

/// `Aead::encrypt` of `Aes256Gcm` with no associated data. The source
/// refuses only plaintexts longer than 2^36 bytes (aes-gcm's `P_MAX`); those
/// of 2^36 - 16 bytes up to 2^36 make ctr's `apply_keystream` panic on its
/// 32-bit block counter, so they are left out. The ciphertext is the
/// plaintext's length plus the 16-byte tag, and is the named result.
#[verifier::external_body]
#[allow(deprecated)]
fn aes256gcm_encrypt(key: &[u8], nonce: &[u8], plaintext: &[u8]) -> (r: Result<
    Vec<u8>,
    aes_gcm::aead::Error,
>)
    requires
        key@.len() == KEY_LEN,
        nonce@.len() == NONCE_LEN,
        plaintext_len_handled(plaintext@.len()),
    ensures
        r is Ok <==> plaintext@.len() <= MAX_PLAINTEXT_LEN,
        r matches Ok(c) ==> c@ == aes256gcm_seal(key@, nonce@, plaintext@),
        r matches Ok(c) ==> c@.len() == plaintext@.len() + 16,
{
    let cipher = Aes256Gcm::new(GenericArray::from_slice(key));
    cipher.encrypt(GenericArray::from_slice(nonce), plaintext)
}

/// `Aead::decrypt` of `Aes256Gcm` with no associated data: the named
/// result, and the AEAD guarantee that a ciphertext sealed under the same
/// key and nonce opens to its plaintext. An authentic ciphertext whose body
/// is 2^36 - 16 bytes up to 2^36 + 16 would make the keystream panic on the
/// 32-bit block counter, so those lengths are left out.
#[verifier::external_body]
#[allow(deprecated)]
fn aes256gcm_decrypt(key: &[u8], nonce: &[u8], ciphertext: &[u8]) -> (r: Result<
    Vec<u8>,
    aes_gcm::aead::Error,
>)
    requires
        key@.len() == KEY_LEN,
        nonce@.len() == NONCE_LEN,
        ciphertext_len_handled(ciphertext@.len()),
    ensures
        match r {
            Ok(p) => aes256gcm_open(key@, nonce@, ciphertext@) == Some(p@),
            Err(_) => aes256gcm_open(key@, nonce@, ciphertext@) is None,
        },
        forall|p: Seq<u8>|
            #![trigger aes256gcm_seal(key@, nonce@, p)]
            p.len() < COUNTER_LIMIT_LEN && aes256gcm_seal(key@, nonce@, p) == ciphertext@ ==> (r is Ok
                && r->Ok_0@ == p),
{
    let cipher = Aes256Gcm::new(GenericArray::from_slice(key));
    cipher.decrypt(GenericArray::from_slice(nonce), ciphertext)
}

/// `base64::encode` (standard alphabet, padded): the named result, whose
/// length `encoded_size` gives; the source panics when that size overflows.
#[verifier::external_body]
fn b64_encode(bytes: &[u8]) -> (text: String)
    requires
        base64_len(bytes@.len()) <= usize::MAX,
    ensures
        text@ == base64_encode(bytes@),
        text@.len() == base64_len(bytes@.len()),
{
    base64::encode(bytes)
}

/// `base64::decode` (standard alphabet): the named result, and that the
/// text `base64::encode` made of some bytes decodes to those bytes.
#[verifier::external_body]
fn b64_decode(text: &str) -> (r: Option<Vec<u8>>)
    ensures
        match r {
            Some(b) => base64_decode(text@) == Some(b@),
            None => base64_decode(text@) is None,
        },
        forall|b: Seq<u8>|
            #![trigger base64_encode(b)]
            base64_encode(b) == text@ ==> (r is Some && r->Some_0@ == b),
{
    match base64::decode(text) {
        Ok(b) => Some(b),
        Err(_) => None,
    }
}

/// `String::from_utf8`: succeeds exactly on valid UTF-8, with the decoded
/// characters.
#[verifier::external_body]
fn string_from_utf8(bytes: Vec<u8>) -> (r: Option<String>)
    ensures
        r is Some <==> valid_utf8(bytes@),
        r matches Some(s) ==> s@ == decode_utf8(bytes@),
{
    match String::from_utf8(bytes) {
        Ok(s) => Some(s),
        Err(_) => None,
    }
}

/// 12 bytes from the operating system's random source (`OsRng::fill_bytes`
/// of rand 0.8). Only the length is known of them.
#[verifier::external_body]
fn generate_nonce() -> (nonce: [u8; 12]) {
    let mut nonce = [0u8; NONCE_LEN];
    rand::rngs::OsRng.fill_bytes(&mut nonce);
    nonce
}

/// 32 bytes from the operating system's random source (`OsRng::fill_bytes`
/// of rand 0.8). Only the length is known of them.
#[verifier::external_body]
fn random_key_bytes() -> (key: Vec<u8>)
    ensures
        key@.len() == KEY_LEN,
{
    let mut key = vec![0u8; KEY_LEN];
    rand::rngs::OsRng.fill_bytes(&mut key);
    key
}

/// A fresh random nonce.
pub fn fresh_nonce() -> (nonce: [u8; 12]) {
    generate_nonce()
}

/// A fresh random AES-256 key.
pub fn generate_encryption_key() -> (key: Vec<u8>)
    ensures
        key@.len() == KEY_LEN,
{
    random_key_bytes()
}

/// The key stored in a key file: its first 32 bytes. A shorter file fails
/// as reading an exact number of bytes does, with "failed to fill whole
/// buffer".
pub fn key_from_file_contents(contents: &[u8]) -> (r: Result<Vec<u8>, CacheError>)
    ensures
        match r {
            Ok(k) => contents@.len() >= KEY_LEN && k@ == contents@.subrange(0, KEY_LEN as int),
            Err(e) => contents@.len() < KEY_LEN && (e matches CacheError::IoError(m) && m@
                == "failed to fill whole buffer"@),
        },
{
    if contents.len() < KEY_LEN {
        return Err(CacheError::IoError(crate::text::owned("failed to fill whole buffer")));
    }
    let mut key: Vec<u8> = Vec::new();
    let mut i: usize = 0;
    while i < KEY_LEN
        invariant
            contents@.len() >= KEY_LEN,
            i <= KEY_LEN,
            key@ == contents@.subrange(0, i as int),
        decreases KEY_LEN - i,
    {
        key.push(contents[i]);
        proof {
            assert(key@ =~= contents@.subrange(0, i + 1));
        }
        i = i + 1;
    }
    Ok(key)
}

/// Holds the AES-256 key with which cached values are sealed and opened.
pub struct EncryptionService {
    key: Vec<u8>,
}

impl EncryptionService {
    #[verifier::type_invariant]
    spec fn key_is_aes256(&self) -> bool {
        self.key@.len() == KEY_LEN
    }

    /// The key bytes.
    pub closed spec fn key(&self) -> Seq<u8> {
        self.key@
    }

    /// Builds the service on `key`; AES-256 accepts only 32-byte keys.
    pub fn new(key: Vec<u8>) -> (r: Result<Self, EncryptionError>)
        ensures
            r is Ok <==> key@.len() == KEY_LEN,
            r matches Ok(s) ==> s.key() == key@,
            r matches Err(e) ==> e is AeadError,
    {
        match check_aes256_key(key.as_slice()) {
            Ok(()) => Ok(EncryptionService { key }),
            Err(e) => Err(EncryptionError::AeadError(e)),
        }
    }

    /// The key has the length AES-256 needs.
    pub fn key_len(&self) -> (n: usize)
        ensures
            n == self.key().len(),
            n == KEY_LEN,
    {
        proof {
            use_type_invariant(self);
        }
        self.key.len()
    }

    /// Seals the bytes `data` under a fresh random nonce: the nonce followed
    /// by the ciphertext and its tag.
    pub fn encrypt_bytes(&self, data: &[u8]) -> (r: Result<Vec<u8>, CacheError>)
        requires
            plaintext_len_handled(data@.len()),
        ensures
            r is Ok <==> data@.len() <= MAX_PLAINTEXT_LEN,
            r matches Ok(blob) ==> is_sealed_bytes_of(self.key(), blob@, data@),
            r matches Ok(blob) ==> blob@.len() == data@.len() + NONCE_LEN + 16,
            r matches Err(e) ==> e == CacheError::EncryptionError,
    {
        proof {
            use_type_invariant(self);
        }
        let nonce = generate_nonce();
        match aes256gcm_encrypt(self.key.as_slice(), nonce.as_slice(), data) {
            Ok(ciphertext) => {
                let mut blob = vstd::slice::slice_to_vec(nonce.as_slice());
                let mut body = ciphertext;
                blob.append(&mut body);
                proof {
                    assert(sealed_bytes_with(self.key(), nonce@, data@, blob@));
                }
                Ok(blob)
            },
            Err(_) => Err(CacheError::EncryptionError),
        }
    }

    /// Opens bytes that `encrypt_bytes` made; anything else that fails to
    /// authenticate yields `DecryptionError`.
    pub fn decrypt_bytes(&self, blob: &[u8]) -> (r: Result<Vec<u8>, CacheError>)
        ensures
            match r {
                Ok(d) => opened_bytes(self.key(), blob@) == Some(d@),
                Err(e) => e == CacheError::DecryptionError && opened_bytes(self.key(), blob@) is None,
            },
            forall|d: Seq<u8>|
                #[trigger] is_sealed_bytes_of(self.key(), blob@, d) ==> (r is Ok && r->Ok_0@ == d),
    {
        proof {
            use_type_invariant(self);
        }
        let ghost key = self.key@;
        let n = blob.len();
        if n < NONCE_LEN {
            proof {
                assert forall|d: Seq<u8>| !is_sealed_bytes_of(key, blob@, d) by {
                    if is_sealed_bytes_of(key, blob@, d) {
                        let z = choose|z: Seq<u8>| #[trigger] sealed_bytes_with(key, z, d, blob@);
                    }
                }
            }
            return Err(CacheError::DecryptionError);
        }
        let nonce = vstd::slice::slice_subrange(blob, 0, NONCE_LEN);
        let ciphertext = vstd::slice::slice_subrange(blob, NONCE_LEN, n);
        proof {
            assert forall|d: Seq<u8>| is_sealed_bytes_of(key, blob@, d) implies ciphertext@
                == aes256gcm_seal(key, nonce@, d) && ciphertext@.len() == d.len() + 16 by {
                let z = choose|z: Seq<u8>| #[trigger] sealed_bytes_with(key, z, d, blob@);
                assert(nonce@ =~= z);
                assert(ciphertext@ =~= aes256gcm_seal(key, z, d));
            }
        }
        let clen = ciphertext.len() as u64;
        if clen >= MAX_PLAINTEXT_LEN && clen <= MAX_PLAINTEXT_LEN + 32 {
            return Err(CacheError::DecryptionError);
        }
        match aes256gcm_decrypt(self.key.as_slice(), nonce, ciphertext) {
            Ok(d) => Ok(d),
            Err(_) => Err(CacheError::DecryptionError),
        }
    }

    /// Seals `value` with the given nonce into the stored text form.
    pub fn encrypt_with_nonce(&self, nonce: &[u8; 12], value: &str) -> (r: Result<
        String,
        CacheError,
    >)
        requires
            plaintext_len_handled(encode_utf8(value@).len()),
            encode_utf8(value@).len() <= MAX_PLAINTEXT_LEN ==> base64_len(encode_utf8(value@).len() + 16)
                <= usize::MAX,
        ensures
            r is Ok <==> encode_utf8(value@).len() <= MAX_PLAINTEXT_LEN,
            r matches Ok(text) ==> text@ == sealed_text(self.key(), nonce@, value@)
                && base64_encode(nonce@).len() == NONCE_TEXT_LEN && text@.len() == sealed_text_len(
                encode_utf8(value@).len(),
            ) && text@.subrange(0, NONCE_TEXT_LEN as int) == base64_encode(nonce@),
            r matches Ok(text) ==> sealed_with(self.key(), nonce@, value@, text@),
            r matches Err(e) ==> e == CacheError::EncryptionError,
    {
        proof {
            use_type_invariant(self);
        }
        let bytes = value.as_bytes();
        match aes256gcm_encrypt(self.key.as_slice(), nonce.as_slice(), bytes) {
            Ok(ciphertext) => {
                let mut text = b64_encode(nonce.as_slice());
                let body = b64_encode(ciphertext.as_slice());
                let ghost head = text@;
                text.append(body.as_str());
                proof {
                    assert(text@.subrange(0, NONCE_TEXT_LEN as int) =~= head);
                }
                Ok(text)
            },
            Err(_) => Err(CacheError::EncryptionError),
        }
    }

    /// Seals `value` under a fresh random nonce.
    pub fn encrypt(&self, value: &str) -> (r: Result<String, CacheError>)
        requires
            plaintext_len_handled(encode_utf8(value@).len()),
            encode_utf8(value@).len() <= MAX_PLAINTEXT_LEN ==> base64_len(encode_utf8(value@).len() + 16)
                <= usize::MAX,
        ensures
            r is Ok <==> encode_utf8(value@).len() <= MAX_PLAINTEXT_LEN,
            r matches Ok(text) ==> is_ciphertext_of(self.key(), text@, value@),
            r matches Ok(text) ==> text@.len() == sealed_text_len(encode_utf8(value@).len())
                && text@ != value@,
            r matches Err(e) ==> e == CacheError::EncryptionError,
    {
        let nonce = generate_nonce();
        let r = self.encrypt_with_nonce(&nonce, value);
        proof {
            if r is Ok {
                assert(sealed_with(self.key(), nonce@, value@, r->Ok_0@));
                lemma_ciphertext_is_not_value(self.key(), r->Ok_0@, value@);
            }
        }
        r
    }

    /// Opens a stored text. Any malformed or unauthentic text yields
    /// `DecryptionError`; a text that `encrypt` made of a value under this
    /// key gives that value back.
    pub fn decrypt(&self, data: &str) -> (r: Result<String, CacheError>)
        ensures
            match r {
                Ok(v) => opened_text(self.key(), data@) == Some(v@),
                Err(e) => e == CacheError::DecryptionError && opened_text(self.key(), data@) is None,
            },
            forall|v: Seq<char>|
                #[trigger] is_ciphertext_of(self.key(), data@, v) ==> (r matches Ok(s) && s@ == v),
    {
        proof {
            use_type_invariant(self);
        }
        let ghost key = self.key@;
        let ghost text = data@;
        let n = data.unicode_len();
        if n < NONCE_TEXT_LEN {
            proof {
                assert forall|v: Seq<char>| !is_ciphertext_of(key, text, v) by {
                    if is_ciphertext_of(key, text, v) {
                        let nonce = choose|nonce: Seq<u8>| #[trigger] sealed_with(key, nonce, v, text);
                        assert(text.len() >= NONCE_TEXT_LEN);
                    }
                }
            }
            return Err(CacheError::DecryptionError);
        }
        let nonce_text = data.substring_char(0, NONCE_TEXT_LEN);
        let body_text = data.substring_char(NONCE_TEXT_LEN, n);
        let ghost head = text.subrange(0, NONCE_TEXT_LEN as int);
        let ghost tail = text.subrange(NONCE_TEXT_LEN as int, text.len() as int);
        let decoded_nonce = b64_decode(nonce_text);
        let decoded_body = b64_decode(body_text);
        proof {
            assert forall|v: Seq<char>| is_ciphertext_of(key, text, v) implies {
                let nonce = choose|nonce: Seq<u8>| #[trigger] sealed_with(key, nonce, v, text);
                &&& decoded_nonce matches Some(d) && d@ == nonce
                &&& decoded_body matches Some(d) && d@ == aes256gcm_seal(key, nonce, encode_utf8(v))
            } by {
                let nonce = choose|nonce: Seq<u8>| #[trigger] sealed_with(key, nonce, v, text);
                let c = aes256gcm_seal(key, nonce, encode_utf8(v));
                assert(head =~= base64_encode(nonce));
                assert(tail =~= base64_encode(c));
            }
        }
        let nonce = match decoded_nonce {
            Some(b) => b,
            None => {
                return Err(CacheError::DecryptionError);
            },
        };
        if nonce.len() != NONCE_LEN {
            return Err(CacheError::DecryptionError);
        }
        let ciphertext = match decoded_body {
            Some(b) => b,
            None => {
                return Err(CacheError::DecryptionError);
            },
        };
        let clen = ciphertext.len() as u64;
        if clen >= MAX_PLAINTEXT_LEN && clen <= MAX_PLAINTEXT_LEN + 32 {
            return Err(CacheError::DecryptionError);
        }
        let plain = match aes256gcm_decrypt(self.key.as_slice(), nonce.as_slice(), ciphertext.as_slice()) {
            Ok(p) => p,
            Err(_) => {
                return Err(CacheError::DecryptionError);
            },
        };
        let ghost plain_bytes = plain@;
        proof {
            assert forall|v: Seq<char>| is_ciphertext_of(key, text, v) implies plain_bytes
                == encode_utf8(v) by {
                let c = aes256gcm_seal(key, nonce@, encode_utf8(v));
                assert(c == ciphertext@);
            }
        }
        match string_from_utf8(plain) {
            Some(s) => {
                proof {
                    assert forall|v: Seq<char>| is_ciphertext_of(key, text, v) implies s@ == v by {
                        vstd::utf8::encode_utf8_decode_utf8(v);
                    }
                }
                Ok(s)
            },
            None => {
                proof {
                    assert forall|v: Seq<char>| !is_ciphertext_of(key, text, v) by {
                        if is_ciphertext_of(key, text, v) {
                            vstd::utf8::encode_utf8_valid_utf8(v);
                        }
                    }
                }
                Err(CacheError::DecryptionError)
            },
        }
    }
}

} // verus!
