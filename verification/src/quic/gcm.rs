//! AES in Galois/counter mode.

use aes_gcm::aead::{Aead, KeyInit, Payload};
use aes_gcm::{AeadInPlace, Aes128Gcm, Aes256Gcm};
use vstd::prelude::*;

verus! {

/// The bytes of a tag.
pub const TAG_LEN: usize = 16;

/// The longest message, and the longest additional data, that can be encrypted.
pub open spec fn gcm_limit() -> int {
    0x10_0000_0000
}

/// What `Aes128Gcm::encrypt_in_place_detached` makes of a message under a key, a nonce and
/// additional data: the ciphertext and the tag.
pub uninterp spec fn sealed_128(
    key: Seq<u8>,
    nonce: Seq<u8>,
    aad: Seq<u8>,
    plain: Seq<u8>,
) -> (Seq<u8>, Seq<u8>);

/// What `Aes128Gcm::decrypt_in_place_detached` makes of a ciphertext and a tag under a key, a
/// nonce and additional data, if it accepts them.
pub uninterp spec fn opened_128(
    key: Seq<u8>,
    nonce: Seq<u8>,
    aad: Seq<u8>,
    body: Seq<u8>,
    tag: Seq<u8>,
) -> Option<Seq<u8>>;

/// `Aes128Gcm::encrypt_in_place_detached` turns a message into its ciphertext, which is as long,
/// and returns the tag. It refuses what is over the limit, and then changes nothing.
#[verifier::external_body]
pub(crate) fn encrypt_128(
    key: &[u8; 16],
    nonce: &[u8; 12],
    aad: &[u8],
    payload: &mut [u8],
) -> (tag: Option<[u8; 16]>)
    ensures
        (tag is Some) == (old(payload)@.len() <= gcm_limit() && aad@.len() <= gcm_limit()),
        tag is Some ==> (final(payload)@, tag->0@) == sealed_128(
            key@,
            nonce@,
            aad@,
            old(payload)@,
        ),
        final(payload)@.len() == old(payload)@.len(),
        tag is None ==> final(payload)@ == old(payload)@,
{
    Aes128Gcm::new(&(*key).into())
        .encrypt_in_place_detached(&(*nonce).into(), aad, payload)
        .ok()
        .map(|tag| tag.into())
}

/// `Aes128Gcm::decrypt_in_place_detached` turns a ciphertext into its message if the tag is the
/// one that belongs to the ciphertext and the additional data, and otherwise changes nothing. It
/// refuses what is over the limit, where a ciphertext may be longer than a message by the length
/// of a tag. Up to the limit it accepts what encryption makes, and nothing else.
#[verifier::external_body]
pub(crate) fn decrypt_128(
    key: &[u8; 16],
    nonce: &[u8; 12],
    aad: &[u8],
    body: &mut [u8],
    tag: &[u8; 16],
) -> (accepted: bool)
    ensures
        accepted == (opened_128(key@, nonce@, aad@, old(body)@, tag@) is Some),
        accepted ==> opened_128(key@, nonce@, aad@, old(body)@, tag@) == Some(final(body)@),
        !accepted ==> final(body)@ == old(body)@,
        final(body)@.len() == old(body)@.len(),
        accepted ==> old(body)@.len() <= gcm_limit() + TAG_LEN && aad@.len() <= gcm_limit(),
        old(body)@.len() <= gcm_limit() && aad@.len() <= gcm_limit() ==> forall|plain: Seq<u8>|
            plain.len() == old(body)@.len() ==> ((accepted && plain == final(body)@) <==> (
            #[trigger] sealed_128(key@, nonce@, aad@, plain)) == (old(body)@, tag@)),
{
    Aes128Gcm::new(&(*key).into())
        .decrypt_in_place_detached(&(*nonce).into(), aad, body, &(*tag).into())
        .is_ok()
}

/// What `Aes256Gcm::encrypt` makes of a message under a key, a nonce and additional data: the
/// ciphertext, followed by the tag.
pub uninterp spec fn sealed_256(
    key: Seq<u8>,
    nonce: Seq<u8>,
    aad: Seq<u8>,
    plain: Seq<u8>,
) -> Seq<u8>;

/// What `Aes256Gcm::decrypt` makes of a ciphertext with its tag under a key, a nonce and
/// additional data, if it accepts them.
pub uninterp spec fn opened_256(
    key: Seq<u8>,
    nonce: Seq<u8>,
    aad: Seq<u8>,
    data: Seq<u8>,
) -> Option<Seq<u8>>;

/// `Aes256Gcm::encrypt` returns the ciphertext of a message, which is as long, followed by the
/// tag. It refuses what is over the limit.
#[verifier::external_body]
pub(crate) fn encrypt_256(
    key: &[u8; 32],
    nonce: &[u8; 12],
    aad: &[u8],
    plain: &[u8],
) -> (data: Option<Vec<u8>>)
    requires
        plain@.len() + TAG_LEN <= isize::MAX,
    ensures
        (data is Some) == (plain@.len() <= gcm_limit() && aad@.len() <= gcm_limit()),
        data is Some ==> data->0@ == sealed_256(key@, nonce@, aad@, plain@),
        data is Some ==> data->0@.len() == plain@.len() + TAG_LEN,
{
    Aes256Gcm::new(&(*key).into()).encrypt(&(*nonce).into(), Payload { msg: plain, aad }).ok()
}

/// `Aes256Gcm::decrypt` returns the message of a ciphertext that is followed by its tag, if the
/// tag is the one that belongs to the ciphertext and the additional data. It refuses what is
/// shorter than a tag or over the limit, where a ciphertext may be longer than a message by the
/// length of a tag. Up to the limit it accepts what encryption makes, and nothing else.
#[verifier::external_body]
pub(crate) fn decrypt_256(
    key: &[u8; 32],
    nonce: &[u8; 12],
    aad: &[u8],
    data: &[u8],
) -> (plain: Option<Vec<u8>>)
    ensures
        (plain is Some) == (opened_256(key@, nonce@, aad@, data@) is Some),
        plain is Some ==> opened_256(key@, nonce@, aad@, data@) == Some(plain->0@),
        plain is Some ==> data@.len() == plain->0@.len() + TAG_LEN,
        plain is Some ==> plain->0@.len() <= gcm_limit() + TAG_LEN && aad@.len() <= gcm_limit(),
        aad@.len() <= gcm_limit() ==> forall|message: Seq<u8>|
            message.len() <= gcm_limit() && message.len() + TAG_LEN == data@.len() ==> ((
            plain is Some && plain->0@ == message) <==> (#[trigger] sealed_256(
                key@,
                nonce@,
                aad@,
                message,
            )) == data@),
{
    Aes256Gcm::new(&(*key).into()).decrypt(&(*nonce).into(), Payload { msg: data, aad }).ok()
}

} // verus!
