//! Keys for stateless resets and tokens, and the tags of retry packets.

use crate::quic::gcm::{
    decrypt_128, decrypt_256, encrypt_128, encrypt_256, gcm_limit, opened_256,
    sealed_128, sealed_256, TAG_LEN,
};
use crate::quic::header::first_bytes;
use hkdf::Hkdf;
use hmac::{Hmac, Mac};
use sha2::Sha256;
use vstd::prelude::*;
use vstd::slice::slice_to_vec;

verus! {

/// The bytes of a signature.
pub const SIGNATURE_LEN: usize = 32;

/// The bytes of a token key.
pub const TOKEN_KEY_LEN: usize = 32;

/// What `Hmac::<Sha256>::finalize` makes of data under a key.
pub uninterp spec fn hmac_sha256(key: Seq<u8>, data: Seq<u8>) -> Seq<u8>;

/// `Hmac::<Sha256>::finalize` is the authentication code of the data that it was updated with,
/// under a key of any length. It has 32 bytes.
#[verifier::external_body]
fn hmac_sign(key: &[u8], data: &[u8]) -> (code: [u8; 32])
    ensures
        code@ == hmac_sha256(key@, data@),
{
    <Hmac<Sha256> as Mac>::new_from_slice(key)
        .expect("HMAC key")
        .chain_update(data)
        .finalize()
        .into_bytes()
        .into()
}

/// `Hmac::<Sha256>::verify_slice` accepts the authentication code of the data, whole, and nothing
/// else.
#[verifier::external_body]
fn hmac_verify(key: &[u8], data: &[u8], signature: &[u8]) -> (accepted: bool)
    ensures
        accepted == (signature@ == hmac_sha256(key@, data@)),
{
    <Hmac<Sha256> as Mac>::new_from_slice(key)
        .expect("HMAC key")
        .chain_update(data)
        .verify_slice(signature)
        .is_ok()
}

/// What `Hkdf::<Sha256>::expand` derives, with `len` bytes, from a secret that was extracted
/// without a salt.
pub uninterp spec fn hkdf_sha256(secret: Seq<u8>, info: Seq<u8>, len: nat) -> Seq<u8>;

/// `Hkdf::<Sha256>::expand` derives as many bytes as it is asked for, up to 255 digests, from a
/// secret that was extracted without a salt.
#[verifier::external_body]
fn hkdf_expand(secret: &[u8], info: &[u8], len: usize) -> (key: Vec<u8>)
    requires
        len <= 255 * 32,
    ensures
        key@ == hkdf_sha256(secret@, info@, len as nat),
        key@.len() == len,
{
    let mut key = vec![0u8; len];
    Hkdf::<Sha256>::new(None, secret).expand(info, &mut key).expect("HKDF expand");
    key
}

/// That something could not be sealed, opened or verified.
#[derive(Clone, Copy, PartialEq, Eq, Structural, Debug)]
pub struct CryptoError;

/// A key for signatures.
pub struct PureHmacKey {
    pub key: Vec<u8>,
}

impl PureHmacKey {
    /// A key from its bytes.
    pub fn new(key: &[u8]) -> (hmac: Self)
        ensures
            hmac.key@ == key@,
    {
        PureHmacKey { key: slice_to_vec(key) }
    }

    /// Writes the signature of data to the front of `out`.
    pub fn sign(&self, data: &[u8], out: &mut [u8])
        requires
            old(out)@.len() >= SIGNATURE_LEN,
        ensures
            final(out)@ == hmac_sha256(self.key@, data@) + old(out)@.skip(SIGNATURE_LEN as int),
            hmac_sha256(self.key@, data@).len() == SIGNATURE_LEN,
    {
        let code: [u8; 32] = hmac_sign(self.key.as_slice(), data);
        put_front(code.as_slice(), out);
    }

    /// The bytes of a signature.
    pub fn signature_len(&self) -> (len: usize)
        ensures
            len == SIGNATURE_LEN,
    {
        SIGNATURE_LEN
    }

    /// Accepts what `sign` writes for the same data, and nothing else.
    pub fn verify(&self, data: &[u8], signature: &[u8]) -> (result: Result<(), CryptoError>)
        ensures
            result is Ok <==> signature@ == hmac_sha256(self.key@, data@),
    {
        if hmac_verify(self.key.as_slice(), data, signature) {
            Ok(())
        } else {
            Err(CryptoError)
        }
    }
}

/// Writes bytes over the front of `out`.
fn put_front(bytes: &[u8], out: &mut [u8])
    requires
        bytes@.len() <= old(out)@.len(),
    ensures
        final(out)@ == bytes@ + old(out)@.skip(bytes@.len() as int),
{
    let ghost before = out@;
    let mut i: usize = 0;
    while i < bytes.len()
        invariant
            i <= bytes@.len() <= before.len(),
            out@ == bytes@.take(i as int) + before.skip(i as int),
        decreases bytes@.len() - i,
    {
        out[i] = bytes[i];
        i = i + 1;
        assert(out@ == bytes@.take(i as int) + before.skip(i as int));
    }
    assert(bytes@.take(bytes@.len() as int) == bytes@);
}

/// The key that tokens are sealed with, one derived key for each token.
pub struct PureHandshakeTokenKey {
    pub secret: Vec<u8>,
}

impl PureHandshakeTokenKey {
    /// A key from a secret.
    pub fn from_secret(secret: &[u8]) -> (key: Self)
        ensures
            key.secret@ == secret@,
    {
        PureHandshakeTokenKey { secret: slice_to_vec(secret) }
    }

    /// The key that belongs to the random bytes of a token.
    pub fn aead_from_hkdf(&self, random_bytes: &[u8]) -> (key: PureAeadKey)
        ensures
            key.key@ == hkdf_sha256(self.secret@, random_bytes@, TOKEN_KEY_LEN as nat),
    {
        let derived: Vec<u8> = hkdf_expand(self.secret.as_slice(), random_bytes, TOKEN_KEY_LEN);
        let mut key: [u8; 32] = [0u8; 32];
        let mut i: usize = 0;
        while i < TOKEN_KEY_LEN
            invariant
                i <= TOKEN_KEY_LEN,
                derived@.len() == TOKEN_KEY_LEN,
                forall|j: int| 0 <= j < i ==> #[trigger] key@[j] == derived@[j],
            decreases TOKEN_KEY_LEN - i,
        {
            key[i] = derived[i];
            i = i + 1;
        }
        assert(key@ == derived@);
        PureAeadKey { key }
    }
}

/// The nonce of a token, which is the only one of its key.
pub open spec fn token_nonce() -> Seq<u8> {
    Seq::new(12, |i: int| 0u8)
}

/// A key that one token is sealed with.
pub struct PureAeadKey {
    pub key: [u8; 32],
}

impl PureAeadKey {
    /// A sealed token.
    pub open spec fn sealed(self, aad: Seq<u8>, plain: Seq<u8>) -> Seq<u8> {
        sealed_256(self.key@, token_nonce(), aad, plain)
    }

    /// The content of a token, if it can be opened.
    pub open spec fn opened(self, aad: Seq<u8>, data: Seq<u8>) -> Option<Seq<u8>> {
        opened_256(self.key@, token_nonce(), aad, data)
    }

    /// Seals a token: puts its ciphertext and tag in place of its content.
    pub fn seal(&self, data: &mut Vec<u8>, additional_data: &[u8]) -> (result: Result<
        (),
        CryptoError,
    >)
        requires
            old(data)@.len() + TAG_LEN <= isize::MAX,
        ensures
            result is Ok <==> old(data)@.len() <= gcm_limit() && additional_data@.len()
                <= gcm_limit(),
            result is Ok ==> final(data)@ == self.sealed(additional_data@, old(data)@),
            result is Ok ==> final(data)@.len() == old(data)@.len() + TAG_LEN,
            result is Ok <==> old(data)@.len() <= 0x10_0000_0000 && additional_data@.len()
                <= 0x10_0000_0000,
            result is Err ==> final(data)@ == old(data)@,
    {
        let nonce: [u8; 12] = [0u8; 12];
        assert(nonce@ == token_nonce());
        match encrypt_256(&self.key, &nonce, additional_data, data.as_slice()) {
            None => Err(CryptoError),
            Some(sealed) => {
                *data = sealed;
                Ok(())
            },
        }
    }

    /// Opens a token in place and returns its content. What follows the content stays.
    ///
    /// Up to the limit a token is opened if and only if it is what sealing makes of some content,
    /// and that content comes back.
    pub fn open<'a>(&self, data: &'a mut [u8], additional_data: &[u8]) -> (result: Result<
        &'a mut [u8],
        CryptoError,
    >)
        ensures
            result is Ok <==> self.opened(additional_data@, old(data)@) is Some,
            result is Ok ==> self.opened(additional_data@, old(data)@) == Some(result->Ok_0@),
            result is Ok ==> result->Ok_0@.len() + TAG_LEN == old(data)@.len(),
            result is Ok ==> final(data)@ == final(result->Ok_0)@ + old(data)@.skip(
                old(data)@.len() - TAG_LEN,
            ),
            result is Err ==> final(data)@ == old(data)@,
            additional_data@.len() <= gcm_limit() ==> forall|plain: Seq<u8>|
                plain.len() <= gcm_limit() && plain.len() + TAG_LEN == old(data)@.len() ==> ((
                result is Ok && result->Ok_0@ == plain) <==> (#[trigger] self.sealed(
                    additional_data@,
                    plain,
                )) == old(data)@),
    {
        let nonce: [u8; 12] = [0u8; 12];
        assert(nonce@ == token_nonce());
        match decrypt_256(&self.key, &nonce, additional_data, data) {
            None => Err(CryptoError),
            Some(plain) => {
                put_front(plain.as_slice(), data);
                let (content, _) = data.split_at_mut(plain.len());
                Ok(content)
            },
        }
    }
}

/// The integrity tag of a retry packet.
pub fn aes128_gcm_seal_tag(key: &[u8; 16], nonce: &[u8; 12], aad: &[u8]) -> (tag: [u8; 16])
    requires
        aad@.len() <= gcm_limit(),
    ensures
        tag@ == sealed_128(key@, nonce@, aad@, Seq::empty()).1,
        sealed_128(key@, nonce@, aad@, Seq::empty()).0 == Seq::<u8>::empty(),
{
    let mut nothing: [u8; 0] = [];
    assert(nothing@ == Seq::<u8>::empty());
    match encrypt_128(key, nonce, aad, &mut nothing) {
        Some(tag) => tag,
        None => vstd::pervasive::unreached(),
    }
}

/// Whether bytes are the integrity tag of a retry packet: the one that `aes128_gcm_seal_tag`
/// returns.
pub fn aes128_gcm_open_tag(key: &[u8; 16], nonce: &[u8; 12], aad: &[u8], tag: &[u8]) -> (accepted:
    bool)
    ensures
        accepted <==> tag@.len() == TAG_LEN && aad@.len() <= gcm_limit() && sealed_128(
            key@,
            nonce@,
            aad@,
            Seq::empty(),
        ) == (Seq::<u8>::empty(), tag@),
        accepted <==> tag@.len() == 16 && aad@.len() <= 0x10_0000_0000 && sealed_128(
            key@,
            nonce@,
            aad@,
            Seq::empty(),
        ) == (Seq::<u8>::empty(), tag@),
{
    if tag.len() != TAG_LEN {
        return false;
    }
    let expected: [u8; 16] = first_bytes(tag);
    assert(tag@.take(16) == tag@);
    let mut nothing: [u8; 0] = [];
    assert(nothing@ == Seq::<u8>::empty());
    let accepted: bool = decrypt_128(key, nonce, aad, &mut nothing, &expected);
    assert(nothing@ == Seq::<u8>::empty());
    accepted
}

/// A token is sealed and opened under the key of the token and a nonce of twelve zeros.
pub proof fn law_tokens_have_the_zero_nonce(
    key: PureAeadKey,
    nonce: Seq<u8>,
    aad: Seq<u8>,
    data: Seq<u8>,
)
    requires
        nonce.len() == 12,
        forall|i: int| 0 <= i < 12 ==> #[trigger] nonce[i] == 0,
    ensures
        key.sealed(aad, data) == sealed_256(key.key@, nonce, aad, data),
        key.opened(aad, data) == opened_256(key.key@, nonce, aad, data),
{
    assert(nonce == token_nonce());
}

} // verus!
