//! Sealed envelopes: authenticated encryption of short-lived state, with key rotation.

use crate::text::{join2, prefix_off_is_prefix_on, strip_prefix, without_prefix};
use base64::engine::general_purpose::URL_SAFE_NO_PAD;
use base64::Engine;
use chacha20poly1305::aead::{Aead, KeyInit, Payload};
use chacha20poly1305::{XChaCha20Poly1305, XNonce};
use rand::RngCore;
use vstd::prelude::*;
use vstd::slice::slice_subrange;

verus! {

/// Why sealing or unsealing failed.
#[derive(Clone, Copy, Debug, Eq, PartialEq, Structural)]
pub enum SealError {
    InvalidKey,
    InvalidEnvelope,
}

impl SealError {
    pub fn message(&self) -> (text: String)
        ensures
            text@ == match *self {
                SealError::InvalidKey => "invalid sealing key: expected 32 bytes"@,
                SealError::InvalidEnvelope => "invalid sealed envelope"@,
            },
    {
        match self {
            SealError::InvalidKey => "invalid sealing key: expected 32 bytes".to_owned(),
            SealError::InvalidEnvelope => "invalid sealed envelope".to_owned(),
        }
    }
}

// ---------------------------------------------------------------------------------------------
// Outside functions
// ---------------------------------------------------------------------------------------------

/// The error of the outside cipher.
#[verifier::external_type_specification]
#[verifier::external_body]
pub struct ExAeadError(chacha20poly1305::aead::Error);

/// The error of the outside decoder.
#[verifier::external_type_specification]
#[verifier::external_body]
pub struct ExDecodeError(base64::DecodeError);

/// The length from which on the cipher refuses a message.
pub open spec fn cipher_limit() -> int {
    64 * 0xffff_ffffint
}

/// Lengths below [`cipher_limit`] for which the cipher's block counter does not suffice: it
/// panics on a message of such a length.
pub open spec fn cipher_stalls(length: int) -> bool {
    64 * 0xffff_fffe < length < cipher_limit()
}

/// Whether `c` belongs to the alphabet of URL-safe base64.
pub open spec fn url_safe_char(c: char) -> bool {
    ||| 'A' <= c <= 'Z'
    ||| 'a' <= c <= 'z'
    ||| '0' <= c <= '9'
    ||| c == '-'
    ||| c == '_'
}

/// The length of the base64 text of `length` bytes, without padding: four characters for every
/// three bytes, rounded up.
pub open spec fn text_length(length: int) -> int {
    (4 * length + 2) / 3
}

/// Lengths of byte strings whose text form fits into memory.
pub open spec fn encodable(length: int) -> bool {
    length <= isize::MAX / 4 * 3
}

/// What XChaCha20-Poly1305 makes of a message: ciphertext and tag, or nothing.
pub uninterp spec fn aead_encrypted(
    key: Seq<u8>,
    nonce: Seq<u8>,
    plaintext: Seq<u8>,
    associated_data: Seq<u8>,
) -> Option<Seq<u8>>;

/// What XChaCha20-Poly1305 recovers from ciphertext and tag: the message, or nothing.
pub uninterp spec fn aead_decrypted(
    key: Seq<u8>,
    nonce: Seq<u8>,
    ciphertext: Seq<u8>,
    associated_data: Seq<u8>,
) -> Option<Seq<u8>>;

/// The URL-safe base64 text of `bytes`, without padding.
pub uninterp spec fn base64url_encoded(bytes: Seq<u8>) -> Seq<char>;

/// The bytes that a URL-safe base64 text without padding stands for, if it is one.
pub uninterp spec fn base64url_decoded(text: Seq<char>) -> Option<Seq<u8>>;

/// Calls `rand::RngCore::fill_bytes` on the thread's generator. Nothing is claimed of the bytes but
/// their number, which the type states.
#[verifier::external_body]
fn random_nonce() -> (nonce: [u8; 24]) {
    let mut nonce = [0_u8; 24];
    rand::rng().fill_bytes(&mut nonce);
    nonce
}

/// Calls `Aead::encrypt` of `XChaCha20Poly1305`. Claimed: the result depends on the four
/// arguments alone (it is [`aead_encrypted`]); it is an error exactly for messages of
/// [`cipher_limit`] bytes and more; otherwise it is the message's length plus a tag of 16 bytes,
/// and `Aead::decrypt` under the same key, nonce and associated data gives the message back.
#[verifier::external_body]
fn encrypt(
    key: &[u8; 32],
    nonce: &[u8; 24],
    plaintext: &[u8],
    associated_data: &[u8],
) -> (ciphertext: Result<Vec<u8>, chacha20poly1305::aead::Error>)
    requires
        !cipher_stalls(plaintext@.len() as int),
        plaintext@.len() + 16 <= isize::MAX,
    ensures
        ciphertext is Ok <==> plaintext@.len() < cipher_limit(),
        match ciphertext {
            Ok(bytes) => {
                &&& aead_encrypted(key@, nonce@, plaintext@, associated_data@) == Some(bytes@)
                &&& bytes@.len() == plaintext@.len() + 16
                &&& aead_decrypted(key@, nonce@, bytes@, associated_data@) == Some(plaintext@)
            },
            Err(_) => aead_encrypted(key@, nonce@, plaintext@, associated_data@) is None,
        },
{
    XChaCha20Poly1305::new(key.into()).encrypt(
        XNonce::from_slice(nonce),
        Payload { msg: plaintext, aad: associated_data },
    )
}

/// Calls `Aead::decrypt` of `XChaCha20Poly1305`. Claimed: the result depends on the four
/// arguments alone (it is [`aead_decrypted`]).
#[verifier::external_body]
fn decrypt(
    key: &[u8; 32],
    nonce: &[u8],
    ciphertext: &[u8],
    associated_data: &[u8],
) -> (plaintext: Result<Vec<u8>, chacha20poly1305::aead::Error>)
    requires
        nonce@.len() == 24,
        !cipher_stalls(ciphertext@.len() - 16),
    ensures
        match plaintext {
            Ok(bytes) => aead_decrypted(key@, nonce@, ciphertext@, associated_data@) == Some(
                bytes@,
            ),
            Err(_) => aead_decrypted(key@, nonce@, ciphertext@, associated_data@) is None,
        },
{
    XChaCha20Poly1305::new(key.into()).decrypt(
        XNonce::from_slice(nonce),
        Payload { msg: ciphertext, aad: associated_data },
    )
}

/// Calls `Engine::encode` of the engine `URL_SAFE_NO_PAD`. Claimed: the text depends on the bytes
/// alone (it is [`base64url_encoded`]), decoding it gives the bytes back, it is as long as
/// [`text_length`] says, and it is made of the characters of the URL-safe alphabet.
#[verifier::external_body]
fn encode(bytes: &[u8]) -> (text: String)
    requires
        encodable(bytes@.len() as int),
    ensures
        text@ == base64url_encoded(bytes@),
        base64url_decoded(text@) == Some(bytes@),
        text@.len() == text_length(bytes@.len() as int),
        forall|i: int| 0 <= i < text@.len() ==> url_safe_char(#[trigger] text@[i]),
{
    URL_SAFE_NO_PAD.encode(bytes)
}

/// Calls `Engine::decode` of the engine `URL_SAFE_NO_PAD`. Claimed: the result depends on the
/// text alone (it is [`base64url_decoded`]), and every four characters hold three bytes.
#[verifier::external_body]
fn decode(text: &str) -> (bytes: Result<Vec<u8>, base64::DecodeError>)
    ensures
        match bytes {
            Ok(bytes) => base64url_decoded(text@) == Some(bytes@) && bytes@.len() == text@.len() * 3
                / 4,
            Err(_) => base64url_decoded(text@) is None,
        },
{
    URL_SAFE_NO_PAD.decode(text)
}

// ---------------------------------------------------------------------------------------------
// Envelopes
// ---------------------------------------------------------------------------------------------

/// Lengths of messages that can be handed to a sealer.
pub open spec fn sealable(length: int) -> bool {
    &&& !cipher_stalls(length)
    &&& length + 16 <= isize::MAX
    &&& length < cipher_limit() ==> encodable(length + 40)
}

/// The shape of the envelope of a message of `length` bytes: `v1.`, then the text form of a nonce of
/// 24 bytes, the message's length of ciphertext and a tag of 16 bytes.
pub open spec fn envelope_shape(envelope: Seq<char>, length: int) -> bool {
    &&& "v1."@.is_prefix_of(envelope)
    &&& envelope.len() == 3 + text_length(length + 40)
    &&& forall|i: int| 3 <= i < envelope.len() ==> url_safe_char(#[trigger] envelope[i])
}

/// The envelope of a message under a key and nonce.
pub open spec fn sealed(
    key: Seq<u8>,
    nonce: Seq<u8>,
    plaintext: Seq<u8>,
    associated_data: Seq<u8>,
) -> Option<Seq<char>> {
    match aead_encrypted(key, nonce, plaintext, associated_data) {
        Some(ciphertext) => Some("v1."@ + base64url_encoded(nonce + ciphertext)),
        None => None,
    }
}

/// What nonce and ciphertext hold under the current key or, failing that, the previous one.
/// Ciphertexts of a length for which the cipher stalls hold nothing.
pub open spec fn opened_parts(
    current: Seq<u8>,
    previous: Option<Seq<u8>>,
    nonce: Seq<u8>,
    ciphertext: Seq<u8>,
    associated_data: Seq<u8>,
) -> Option<Seq<u8>> {
    if cipher_stalls(ciphertext.len() - 16) {
        None
    } else {
        match aead_decrypted(current, nonce, ciphertext, associated_data) {
            Some(plaintext) => Some(plaintext),
            None => match previous {
                Some(previous) => aead_decrypted(previous, nonce, ciphertext, associated_data),
                None => None,
            },
        }
    }
}

/// The message in an envelope: `v1.` and the text form of a 24-byte nonce and a ciphertext.
pub open spec fn opened(
    current: Seq<u8>,
    previous: Option<Seq<u8>>,
    envelope: Seq<char>,
    associated_data: Seq<u8>,
) -> Option<Seq<u8>> {
    match without_prefix(envelope, "v1."@) {
        None => None,
        Some(encoded) => match base64url_decoded(encoded) {
            None => None,
            Some(bytes) => if bytes.len() <= 24 {
                None
            } else {
                opened_parts(current, previous, bytes.take(24), bytes.skip(24), associated_data)
            },
        },
    }
}

/// Whether every sealer whose current key is `key` finds `plaintext` in the envelope, whatever its
/// previous key.
pub open spec fn opens_under(
    key: Seq<u8>,
    envelope: Seq<char>,
    associated_data: Seq<u8>,
    plaintext: Seq<u8>,
) -> bool {
    forall|previous: Option<Seq<u8>>| #[trigger]
        opened(key, previous, envelope, associated_data) == Some(plaintext)
}

/// Seals messages into envelopes and opens them again.
pub trait Sealer {
    /// The message that this sealer finds in an envelope.
    spec fn message_in(&self, envelope: Seq<char>, associated_data: Seq<u8>) -> Option<Seq<u8>>;

    /// Seals `plaintext`, bound to `associated_data`. What is sealed can be unsealed.
    fn seal(&self, plaintext: &[u8], associated_data: &[u8]) -> (envelope: Result<
        String,
        SealError,
    >)
        requires
            sealable(plaintext@.len() as int),
        ensures
            envelope matches Ok(envelope) ==> self.message_in(envelope@, associated_data@) == Some(
                plaintext@,
            ),
    ;

    /// Opens an envelope that was bound to `associated_data`.
    fn unseal(&self, envelope: &str, associated_data: &[u8]) -> (plaintext: Result<
        Vec<u8>,
        SealError,
    >)
        ensures
            match plaintext {
                Ok(plaintext) => self.message_in(envelope@, associated_data@) == Some(plaintext@),
                Err(_) => self.message_in(envelope@, associated_data@) is None,
            },
    ;
}

/// A sealer with XChaCha20-Poly1305. Seals under the current key; unseals under the current key
/// and, during a rotation, under the previous one.
pub struct XChaChaSealer {
    current: [u8; 32],
    previous: Option<[u8; 32]>,
}

/// Whether the cipher stalls on the ciphertext behind a nonce of 24 bytes.
fn stalls(length: usize) -> (yes: bool)
    ensures
        yes == cipher_stalls(length - 40),
{
    let length: u64 = length as u64;
    64 * 0xffff_fffe_u64 + 40 < length && length < 64 * 0xffff_ffff_u64 + 40
}

fn key_from(bytes: &[u8]) -> (key: Result<[u8; 32], SealError>)
    ensures
        match key {
            Ok(key) => bytes@.len() == 32 && key@ == bytes@,
            Err(error) => bytes@.len() != 32 && error == SealError::InvalidKey,
        },
{
    if bytes.len() != 32 {
        return Err(SealError::InvalidKey);
    }
    let mut key: [u8; 32] = [0u8; 32];
    for i in 0..32usize
        invariant
            bytes@.len() == 32,
            forall|j: int| 0 <= j < i ==> key@[j] == bytes@[j],
    {
        key[i] = bytes[i];
    }
    assert(key@ =~= bytes@);
    Ok(key)
}

impl XChaChaSealer {
    /// The key that seals.
    pub closed spec fn current(&self) -> Seq<u8> {
        self.current@
    }

    /// The key that, besides the current one, unseals.
    pub closed spec fn previous(&self) -> Option<Seq<u8>> {
        match self.previous {
            Some(key) => Some(key@),
            None => None,
        }
    }

    /// Takes the keys, which have 32 bytes each.
    pub fn new(current: &[u8], previous: Option<&[u8]>) -> (sealer: Result<XChaChaSealer, SealError>)
        ensures
            match sealer {
                Ok(sealer) => {
                    &&& current@.len() == 32
                    &&& sealer.current() == current@
                    &&& match previous {
                        Some(key) => key@.len() == 32 && sealer.previous() == Some(key@),
                        None => sealer.previous() is None,
                    }
                },
                Err(error) => {
                    &&& error == SealError::InvalidKey
                    &&& current@.len() != 32 || (previous matches Some(key) && key@.len() != 32)
                },
            },
    {
        let current: [u8; 32] = key_from(current)?;
        let previous: Option<[u8; 32]> = match previous {
            Some(key) => Some(key_from(key)?),
            None => None,
        };
        Ok(XChaChaSealer { current, previous })
    }

    /// Seals `plaintext` under a given nonce. A nonce is good for one message.
    pub fn seal_with_nonce(
        &self,
        nonce: &[u8; 24],
        plaintext: &[u8],
        associated_data: &[u8],
    ) -> (envelope: Result<String, SealError>)
        requires
            sealable(plaintext@.len() as int),
        ensures
            envelope is Ok <==> plaintext@.len() < cipher_limit(),
            match envelope {
                Ok(envelope) => {
                    &&& sealed(self.current(), nonce@, plaintext@, associated_data@) == Some(
                        envelope@,
                    )
                    &&& aead_encrypted(self.current(), nonce@, plaintext@, associated_data@)->0.len()
                        == plaintext@.len() + 16
                    &&& envelope_shape(envelope@, plaintext@.len() as int)
                    &&& opens_under(self.current(), envelope@, associated_data@, plaintext@)
                },
                Err(error) => {
                    &&& sealed(self.current(), nonce@, plaintext@, associated_data@) is None
                    &&& error == SealError::InvalidEnvelope
                },
            },
            plaintext@.len() < 64 * 0xffff_ffffint ==> (envelope matches Ok(envelope)
                && aead_encrypted(self.current(), nonce@, plaintext@, associated_data@) matches Some(
                ciphertext,
            ) && {
                &&& envelope@ == "v1."@ + base64url_encoded(nonce@ + ciphertext)
                &&& base64url_decoded(base64url_encoded(nonce@ + ciphertext)) == Some(
                    nonce@ + ciphertext,
                )
                &&& aead_decrypted(self.current(), nonce@, ciphertext, associated_data@) == Some(
                    plaintext@,
                )
            }),
            plaintext@.len() >= 64 * 0xffff_ffffint ==> aead_encrypted(
                self.current(),
                nonce@,
                plaintext@,
                associated_data@,
            ) is None,
    {
        let ciphertext: Vec<u8> = match encrypt(&self.current, nonce, plaintext, associated_data) {
            Ok(ciphertext) => ciphertext,
            Err(_) => {
                return Err(SealError::InvalidEnvelope);
            },
        };
        let mut bytes: Vec<u8> = Vec::with_capacity(24 + ciphertext.len());
        bytes.extend_from_slice(nonce.as_slice());
        bytes.extend_from_slice(ciphertext.as_slice());
        proof {
            assert(bytes@ =~= nonce@ + ciphertext@);
            assert(bytes@.take(24) =~= nonce@);
            assert(bytes@.skip(24) =~= ciphertext@);
        }
        let text: String = encode(bytes.as_slice());
        let envelope: String = join2("v1.", text.as_str());
        proof {
            reveal_strlit("v1.");
            assert(envelope@.skip("v1."@.len() as int) =~= text@);
            assert("v1."@.is_prefix_of(envelope@));
            assert forall|i: int| 3 <= i < envelope@.len() implies url_safe_char(
                #[trigger] envelope@[i],
            ) by {
                assert(envelope@[i] == text@[i - 3]);
            }
        }
        Ok(envelope)
    }

    fn try_unseal(
        key: &[u8; 32],
        nonce: &[u8],
        ciphertext: &[u8],
        associated_data: &[u8],
    ) -> (plaintext: Result<Vec<u8>, SealError>)
        requires
            nonce@.len() == 24,
            !cipher_stalls(ciphertext@.len() - 16),
        ensures
            match plaintext {
                Ok(bytes) => aead_decrypted(key@, nonce@, ciphertext@, associated_data@) == Some(
                    bytes@,
                ),
                Err(error) => {
                    &&& aead_decrypted(key@, nonce@, ciphertext@, associated_data@) is None
                    &&& error == SealError::InvalidEnvelope
                },
            },
    {
        match decrypt(key, nonce, ciphertext, associated_data) {
            Ok(plaintext) => Ok(plaintext),
            Err(_) => Err(SealError::InvalidEnvelope),
        }
    }

    /// Opens what is left of an envelope once its text form is decoded: nonce and ciphertext.
    pub fn unseal_bytes(&self, bytes: &[u8], associated_data: &[u8]) -> (plaintext: Result<
        Vec<u8>,
        SealError,
    >)
        ensures
            match plaintext {
                Ok(plaintext) => {
                    &&& bytes@.len() > 24
                    &&& opened_parts(
                        self.current(),
                        self.previous(),
                        bytes@.take(24),
                        bytes@.skip(24),
                        associated_data@,
                    ) == Some(plaintext@)
                },
                Err(error) => {
                    &&& error == SealError::InvalidEnvelope
                    &&& bytes@.len() <= 24 || opened_parts(
                        self.current(),
                        self.previous(),
                        bytes@.take(24),
                        bytes@.skip(24),
                        associated_data@,
                    ) is None
                },
            },
            bytes@.len() <= 24 || 64 * 0xffff_fffeint + 40 < bytes@.len() < 64 * 0xffff_ffffint + 40
                ==> plaintext is Err,
            24 < bytes@.len() <= 64 * 0xffff_fffeint + 40 || bytes@.len() >= 64 * 0xffff_ffffint + 40
                ==> (match aead_decrypted(
                self.current(),
                bytes@.take(24),
                bytes@.skip(24),
                associated_data@,
            ) {
                Some(message) => plaintext matches Ok(plaintext) && plaintext@ == message,
                None => match self.previous() {
                    None => plaintext is Err,
                    Some(key) => match aead_decrypted(
                        key,
                        bytes@.take(24),
                        bytes@.skip(24),
                        associated_data@,
                    ) {
                        Some(message) => plaintext matches Ok(plaintext) && plaintext@ == message,
                        None => plaintext is Err,
                    },
                },
            }),
    {
        if bytes.len() <= 24 || stalls(bytes.len()) {
            assert(bytes@.len() > 24 ==> bytes@.skip(24).len() == bytes@.len() - 24);
            return Err(SealError::InvalidEnvelope);
        }
        let nonce: &[u8] = slice_subrange(bytes, 0, 24);
        let ciphertext: &[u8] = slice_subrange(bytes, 24, bytes.len());
        proof {
            assert(nonce@ =~= bytes@.take(24));
            assert(ciphertext@ =~= bytes@.skip(24));
        }
        match XChaChaSealer::try_unseal(&self.current, nonce, ciphertext, associated_data) {
            Ok(plaintext) => Ok(plaintext),
            Err(_) => match &self.previous {
                Some(key) => XChaChaSealer::try_unseal(key, nonce, ciphertext, associated_data),
                None => Err(SealError::InvalidEnvelope),
            },
        }
    }
}

impl Sealer for XChaChaSealer {
    open spec fn message_in(&self, envelope: Seq<char>, associated_data: Seq<u8>) -> Option<Seq<u8>> {
        opened(self.current(), self.previous(), envelope, associated_data)
    }

    fn seal(&self, plaintext: &[u8], associated_data: &[u8]) -> (envelope: Result<String, SealError>)
        ensures
            envelope is Ok <==> plaintext@.len() < cipher_limit(),
            envelope matches Ok(envelope) ==> exists|nonce: Seq<u8>|
                nonce.len() == 24 && #[trigger] sealed(
                    self.current(),
                    nonce,
                    plaintext@,
                    associated_data@,
                ) == Some(envelope@) && aead_encrypted(
                    self.current(),
                    nonce,
                    plaintext@,
                    associated_data@,
                )->0.len() == plaintext@.len() + 16,
            envelope matches Ok(envelope) ==> envelope_shape(envelope@, plaintext@.len() as int)
                && opens_under(self.current(), envelope@, associated_data@, plaintext@),
            envelope matches Err(error) ==> error == SealError::InvalidEnvelope,
            envelope matches Ok(envelope) ==> exists|nonce: Seq<u8>, ciphertext: Seq<u8>|
                nonce.len() == 24 && aead_encrypted(
                    self.current(),
                    nonce,
                    plaintext@,
                    associated_data@,
                ) == Some(ciphertext) && envelope@ == "v1."@ + #[trigger] base64url_encoded(
                    nonce + ciphertext,
                ) && aead_decrypted(self.current(), nonce, ciphertext, associated_data@) == Some(
                    plaintext@,
                ),
    {
        let nonce: [u8; 24] = random_nonce();
        self.seal_with_nonce(&nonce, plaintext, associated_data)
    }

    fn unseal(&self, envelope: &str, associated_data: &[u8]) -> (plaintext: Result<
        Vec<u8>,
        SealError,
    >)
        ensures
            plaintext matches Err(error) ==> error == SealError::InvalidEnvelope,
            envelope@.len() < 3 || envelope@.take(3) != "v1."@ ==> plaintext is Err,
            envelope@.len() >= 3 && envelope@.take(3) == "v1."@ ==> (match base64url_decoded(
                envelope@.skip(3),
            ) {
                None => plaintext is Err,
                Some(bytes) => {
                    &&& bytes.len() <= 24 || 64 * 0xffff_fffeint + 40 < bytes.len() < 64
                        * 0xffff_ffffint + 40 ==> plaintext is Err
                    &&& 24 < bytes.len() <= 64 * 0xffff_fffeint + 40 || bytes.len() >= 64
                        * 0xffff_ffffint + 40 ==> (match aead_decrypted(
                        self.current(),
                        bytes.take(24),
                        bytes.skip(24),
                        associated_data@,
                    ) {
                        Some(message) => plaintext matches Ok(plaintext) && plaintext@ == message,
                        None => match self.previous() {
                            None => plaintext is Err,
                            Some(key) => match aead_decrypted(
                                key,
                                bytes.take(24),
                                bytes.skip(24),
                                associated_data@,
                            ) {
                                Some(message) => plaintext matches Ok(plaintext) && plaintext@
                                    == message,
                                None => plaintext is Err,
                            },
                        },
                    })
                },
            }),
    {
        proof {
            reveal_strlit("v1.");
            prefix_off_is_prefix_on(envelope@, "v1."@, envelope@.skip(3));
            if envelope@.len() >= 3 && envelope@.take(3) == "v1."@ {
                assert(envelope@ =~= "v1."@ + envelope@.skip(3));
            }
        }
        let encoded: &str = match strip_prefix(envelope, "v1.") {
            Some(encoded) => encoded,
            None => {
                return Err(SealError::InvalidEnvelope);
            },
        };
        let bytes: Vec<u8> = match decode(encoded) {
            Ok(bytes) => bytes,
            Err(_) => {
                return Err(SealError::InvalidEnvelope);
            },
        };
        self.unseal_bytes(bytes.as_slice(), associated_data)
    }
}

/// A rotated sealer opens what was sealed before the rotation: an envelope that holds `plaintext`
/// under the old key holds it for a sealer with the new key as current and the old one as previous,
/// unless the new key opens the envelope to something else.
pub proof fn rotation_keeps_old_envelopes(
    new: Seq<u8>,
    old_key: Seq<u8>,
    envelope: Seq<char>,
    associated_data: Seq<u8>,
    plaintext: Seq<u8>,
)
    requires
        opened(old_key, None, envelope, associated_data) == Some(plaintext),
        opened(new, None, envelope, associated_data) is None || opened(
            new,
            None,
            envelope,
            associated_data,
        ) == Some(plaintext),
    ensures
        opened(new, Some(old_key), envelope, associated_data) == Some(plaintext),
{
}

/// The current key comes first: an envelope that it opens holds the same message whatever the
/// previous key is.
pub proof fn current_key_takes_precedence(
    current: Seq<u8>,
    previous: Option<Seq<u8>>,
    envelope: Seq<char>,
    associated_data: Seq<u8>,
)
    requires
        opened(current, None, envelope, associated_data) is Some,
    ensures
        opened(current, previous, envelope, associated_data) == opened(
            current,
            None,
            envelope,
            associated_data,
        ),
{
}

/// An envelope is `v1.` and the text form of nonce and ciphertext, which is what the cipher makes of
/// the whole message under the key, bound to the whole of the associated data.
pub proof fn envelopes_hold_nonce_and_ciphertext(
    key: Seq<u8>,
    nonce: Seq<u8>,
    plaintext: Seq<u8>,
    associated_data: Seq<u8>,
)
    ensures
        aead_encrypted(key, nonce, plaintext, associated_data) matches Some(ciphertext) ==> sealed(
            key,
            nonce,
            plaintext,
            associated_data,
        ) == Some("v1."@ + base64url_encoded(nonce + ciphertext)),
        aead_encrypted(key, nonce, plaintext, associated_data) is None ==> sealed(
            key,
            nonce,
            plaintext,
            associated_data,
        ) is None,
{
}

/// An envelope opens to what the cipher recovers from its nonce and ciphertext under the current key
/// or, failing that, the previous one, bound to the whole of the associated data. That is so for
/// ciphertexts of every length but those for which the cipher stalls.
pub proof fn envelopes_open_to_what_the_cipher_recovers(
    current: Seq<u8>,
    previous: Seq<u8>,
    encoded: Seq<char>,
    nonce: Seq<u8>,
    ciphertext: Seq<u8>,
    associated_data: Seq<u8>,
)
    requires
        base64url_decoded(encoded) == Some(nonce + ciphertext),
        nonce.len() == 24,
        0 < ciphertext.len() <= 64 * 0xffff_fffeint + 16 || ciphertext.len() >= 64 * 0xffff_ffffint
            + 16,
    ensures
        aead_decrypted(current, nonce, ciphertext, associated_data) matches Some(plaintext)
            ==> opened(current, None, "v1."@ + encoded, associated_data) == Some(plaintext)
            && opened(current, Some(previous), "v1."@ + encoded, associated_data) == Some(plaintext),
        aead_decrypted(current, nonce, ciphertext, associated_data) is None ==> opened(
            current,
            None,
            "v1."@ + encoded,
            associated_data,
        ) is None && opened(current, Some(previous), "v1."@ + encoded, associated_data)
            == aead_decrypted(previous, nonce, ciphertext, associated_data),
{
    let bytes = nonce + ciphertext;
    prefix_off_is_prefix_on("v1."@ + encoded, "v1."@, encoded);
    assert(bytes.take(24) =~= nonce);
    assert(bytes.skip(24) =~= ciphertext);
}

/// What is not `v1.` and the text form of a nonce and a ciphertext holds nothing, whatever the keys.
pub proof fn other_texts_hold_nothing(
    current: Seq<u8>,
    previous: Option<Seq<u8>>,
    envelope: Seq<char>,
    associated_data: Seq<u8>,
)
    requires
        forall|encoded: Seq<char>|
            envelope == "v1."@ + encoded && #[trigger] base64url_decoded(encoded) is Some
                ==> base64url_decoded(encoded)->0.len() <= 24,
    ensures
        opened(current, previous, envelope, associated_data) is None,
{
    if let Some(encoded) = without_prefix(envelope, "v1."@) {
        prefix_off_is_prefix_on(envelope, "v1."@, encoded);
        assert(base64url_decoded(encoded) is Some ==> base64url_decoded(encoded)->0.len() <= 24);
    }
}

/// A sealer finds in an envelope what its two keys open.
pub proof fn sealers_open_with_their_keys(
    sealer: &XChaChaSealer,
    envelope: Seq<char>,
    associated_data: Seq<u8>,
)
    ensures
        sealer.message_in(envelope, associated_data) == opened(
            sealer.current(),
            sealer.previous(),
            envelope,
            associated_data,
        ),
{
}

/// As far as memory reaches, every message can be handed to a sealer but those for which the block
/// counter of the cipher does not suffice. The text form of bytes has four characters for every three
/// of them, rounded up, out of letters, digits, hyphen and underscore.
pub proof fn lengths_and_characters_of_envelopes(length: int, c: char)
    requires
        0 <= length,
    ensures
        sealable(length) <==> {
            &&& length <= 64 * 0xffff_fffeint || length >= 64 * 0xffff_ffffint
            &&& length + 16 <= isize::MAX
            &&& length < 64 * 0xffff_ffffint ==> length + 40 <= isize::MAX / 4 * 3
        },
        3 * text_length(length) >= 4 * length,
        3 * (text_length(length) - 1) < 4 * length,
        url_safe_char(c) <==> {
            ||| 0x30 <= c as int <= 0x39
            ||| 0x41 <= c as int <= 0x5a
            ||| 0x61 <= c as int <= 0x7a
            ||| c as int == 0x2d
            ||| c as int == 0x5f
        },
{
}

} // verus!
