//! Packet protection with AES-128 in Galois/counter mode.

use crate::quic::gcm::{decrypt_128, encrypt_128, gcm_limit, opened_128, sealed_128, TAG_LEN};
use crate::quic::header::{first_bytes, Aes128HeaderProtectionKey};
use vstd::prelude::*;

verus! {

/// The bytes of a key.
pub const KEY_LEN: usize = 16;

/// How many packets that fail to open a key bears.
pub const INTEGRITY_LIMIT: u64 = 0x10_0000_0000_0000;

/// How many packets a key may seal.
pub const CONFIDENTIALITY_LIMIT: u64 = 0x80_0000;

/// Byte `i` of a packet number that is written with twelve bytes, the most significant first.
pub open spec fn number_byte(packet_number: u64, i: int) -> u8 {
    if i < 4 {
        0
    } else {
        ((packet_number >> ((8 * (11 - i)) as u64)) & 0xff) as u8
    }
}

/// The nonce of a packet: the initialisation vector, each byte combined with that of the packet
/// number.
pub open spec fn nonce_of(iv: Seq<u8>, packet_number: u64) -> Seq<u8> {
    Seq::new(12, |i: int| number_byte(packet_number, i) ^ iv[i])
}

/// `Nonce::new` combines an initialisation vector with a packet number, which it writes with
/// twelve bytes, the most significant first.
#[verifier::external_body]
fn packet_nonce(iv: &[u8; 12], packet_number: u64) -> (nonce: [u8; 12])
    ensures
        nonce@ == nonce_of(iv@, packet_number),
{
    rustls::crypto::cipher::Nonce::new(&(*iv).into(), packet_number).0
}

/// Why a packet could not be protected or unprotected.
#[derive(Clone, Copy, PartialEq, Eq, Structural, Debug)]
pub enum PacketError {
    EncryptError,
    DecryptError,
}

/// A key for the protection of packets.
pub struct Aes128GcmPacketKey {
    pub key: [u8; 16],
    pub iv: [u8; 12],
}

impl Aes128GcmPacketKey {
    /// The ciphertext and the tag of a packet.
    pub open spec fn sealed(self, packet_number: u64, aad: Seq<u8>, plain: Seq<u8>) -> (
        Seq<u8>,
        Seq<u8>,
    ) {
        sealed_128(self.key@, nonce_of(self.iv@, packet_number), aad, plain)
    }

    /// The content of a packet, given its ciphertext followed by its tag, if it can be opened.
    pub open spec fn opened(self, packet_number: u64, aad: Seq<u8>, payload: Seq<u8>) -> Option<
        Seq<u8>,
    > {
        if payload.len() < TAG_LEN {
            None
        } else {
            let at = payload.len() - TAG_LEN;
            opened_128(
                self.key@,
                nonce_of(self.iv@, packet_number),
                aad,
                payload.take(at),
                payload.skip(at),
            )
        }
    }

    /// A key from its bytes and an initialisation vector.
    pub fn new(key: &[u8], iv: [u8; 12]) -> (packet: Self)
        requires
            key@.len() == KEY_LEN,
        ensures
            packet.key@ == key@,
            packet.iv == iv,
    {
        let key_bytes: [u8; 16] = first_bytes(key);
        assert(key@.take(16) == key@);
        Aes128GcmPacketKey { key: key_bytes, iv }
    }

    /// Turns the content of a packet into its ciphertext and returns the tag.
    pub fn encrypt_in_place(&self, packet_number: u64, aad: &[u8], payload: &mut [u8]) -> (result:
        Result<[u8; 16], PacketError>)
        ensures
            result is Ok <==> old(payload)@.len() <= gcm_limit() && aad@.len() <= gcm_limit(),
            result is Ok ==> (final(payload)@, result->Ok_0@) == self.sealed(
                packet_number,
                aad@,
                old(payload)@,
            ),
            result is Ok ==> (final(payload)@, result->Ok_0@) == sealed_128(
                self.key@,
                nonce_of(self.iv@, packet_number),
                aad@,
                old(payload)@,
            ),
            result is Ok <==> old(payload)@.len() <= 0x10_0000_0000 && aad@.len()
                <= 0x10_0000_0000,
            result is Err ==> result->Err_0 == PacketError::EncryptError && final(payload)@ == old(
                payload,
            )@,
            final(payload)@.len() == old(payload)@.len(),
    {
        let nonce: [u8; 12] = packet_nonce(&self.iv, packet_number);
        match encrypt_128(&self.key, &nonce, aad, payload) {
            None => Err(PacketError::EncryptError),
            Some(tag) => Ok(tag),
        }
    }

    /// Opens a packet in place, given its ciphertext followed by its tag, and returns its
    /// content. The tag stays where it is.
    ///
    /// Up to the limit a packet is opened if and only if it is what protection makes of some
    /// content, and that content comes back.
    pub fn decrypt_in_place<'a>(
        &self,
        packet_number: u64,
        aad: &[u8],
        payload: &'a mut [u8],
    ) -> (result: Result<&'a [u8], PacketError>)
        ensures
            result is Ok <==> self.opened(packet_number, aad@, old(payload)@) is Some,
            result is Ok ==> self.opened(packet_number, aad@, old(payload)@) == Some(
                result->Ok_0@,
            ),
            result is Ok <==> old(payload)@.len() >= 16 && opened_128(
                self.key@,
                nonce_of(self.iv@, packet_number),
                aad@,
                old(payload)@.subrange(0, old(payload)@.len() - 16),
                old(payload)@.subrange(old(payload)@.len() - 16, old(payload)@.len() as int),
            ) is Some,
            result is Ok ==> opened_128(
                self.key@,
                nonce_of(self.iv@, packet_number),
                aad@,
                old(payload)@.subrange(0, old(payload)@.len() - 16),
                old(payload)@.subrange(old(payload)@.len() - 16, old(payload)@.len() as int),
            ) == Some(result->Ok_0@),
            result is Ok ==> result->Ok_0@.len() + TAG_LEN == old(payload)@.len(),
            result is Ok ==> final(payload)@ == result->Ok_0@ + old(payload)@.skip(
                old(payload)@.len() - TAG_LEN,
            ),
            result is Err ==> result->Err_0 == PacketError::DecryptError && final(payload)@ == old(
                payload,
            )@,
            aad@.len() <= gcm_limit() ==> forall|plain: Seq<u8>|
                plain.len() <= gcm_limit() && plain.len() + TAG_LEN == old(payload)@.len() ==> ((
                result is Ok && result->Ok_0@ == plain) <==> (#[trigger] self.sealed(
                    packet_number,
                    aad@,
                    plain,
                )) == (
                    old(payload)@.take(plain.len() as int),
                    old(payload)@.skip(plain.len() as int),
                )),
    {
        let payload_len: usize = payload.len();
        if payload_len < TAG_LEN {
            return Err(PacketError::DecryptError);
        }
        let (body, tag_bytes) = payload.split_at_mut(payload_len - TAG_LEN);
        let nonce: [u8; 12] = packet_nonce(&self.iv, packet_number);
        let tag: [u8; 16] = first_bytes(tag_bytes);
        assert(body@ == old(payload)@.take(payload_len - TAG_LEN));
        assert(tag@ == old(payload)@.skip(payload_len - TAG_LEN));
        assert(body@ == old(payload)@.subrange(0, payload_len - 16));
        assert(tag@ == old(payload)@.subrange(payload_len - 16, payload_len as int));
        let accepted: bool = decrypt_128(&self.key, &nonce, aad, body, &tag);
        let ghost content = body@;
        if accepted {
            assert(payload@.take(payload_len - TAG_LEN) == content);
            Ok(&payload[0..payload_len - TAG_LEN])
        } else {
            Err(PacketError::DecryptError)
        }
    }

    /// The bytes of a tag.
    pub fn tag_len(&self) -> (len: usize)
        ensures
            len == TAG_LEN,
    {
        TAG_LEN
    }

    /// How many packets that fail to open this key bears.
    pub fn integrity_limit(&self) -> (limit: u64)
        ensures
            limit == INTEGRITY_LIMIT == 1u64 << 52,
    {
        assert(0x10_0000_0000_0000u64 == 1u64 << 52) by (bit_vector);
        INTEGRITY_LIMIT
    }

    /// How many packets this key may seal.
    pub fn confidentiality_limit(&self) -> (limit: u64)
        ensures
            limit == CONFIDENTIALITY_LIMIT == 1u64 << 23,
    {
        assert(0x80_0000u64 == 1u64 << 23) by (bit_vector);
        CONFIDENTIALITY_LIMIT
    }
}

/// The algorithm that makes the keys.
pub struct Aes128GcmQuicAlgorithm;

impl Aes128GcmQuicAlgorithm {
    /// A key for packets.
    pub fn packet_key(&self, key: &[u8], iv: [u8; 12]) -> (packet: Aes128GcmPacketKey)
        requires
            key@.len() == KEY_LEN,
        ensures
            packet.key@ == key@,
            packet.iv == iv,
    {
        Aes128GcmPacketKey::new(key, iv)
    }

    /// A key for headers.
    pub fn header_protection_key(&self, key: &[u8]) -> (header: Aes128HeaderProtectionKey)
        requires
            key@.len() == KEY_LEN,
        ensures
            header.key@ == key@,
    {
        Aes128HeaderProtectionKey::new(key)
    }

    /// The bytes of a key.
    pub fn aead_key_len(&self) -> (len: usize)
        ensures
            len == KEY_LEN,
    {
        KEY_LEN
    }
}

/// The algorithm.
pub const AES_128_GCM_QUIC: Aes128GcmQuicAlgorithm = Aes128GcmQuicAlgorithm;

/// Combining two bytes with the same byte keeps them apart.
proof fn lemma_same_mask(a: u8, b: u8, mask: u8)
    requires
        a ^ mask == b ^ mask,
    ensures
        a == b,
{
    assert(a ^ mask == b ^ mask ==> a == b) by (bit_vector);
}

/// A packet number is known by the bytes that it is written with.
proof fn lemma_number_bytes(a: u64, b: u64)
    requires
        forall|i: int| 4 <= i < 12 ==> #[trigger] number_byte(a, i) == number_byte(b, i),
    ensures
        a == b,
{
    assert(number_byte(a, 4) == number_byte(b, 4));
    assert(number_byte(a, 5) == number_byte(b, 5));
    assert(number_byte(a, 6) == number_byte(b, 6));
    assert(number_byte(a, 7) == number_byte(b, 7));
    assert(number_byte(a, 8) == number_byte(b, 8));
    assert(number_byte(a, 9) == number_byte(b, 9));
    assert(number_byte(a, 10) == number_byte(b, 10));
    assert(number_byte(a, 11) == number_byte(b, 11));
    assert(a == b) by (bit_vector)
        requires
            ((a >> 56u64) & 0xff) as u8 == ((b >> 56u64) & 0xff) as u8,
            ((a >> 48u64) & 0xff) as u8 == ((b >> 48u64) & 0xff) as u8,
            ((a >> 40u64) & 0xff) as u8 == ((b >> 40u64) & 0xff) as u8,
            ((a >> 32u64) & 0xff) as u8 == ((b >> 32u64) & 0xff) as u8,
            ((a >> 24u64) & 0xff) as u8 == ((b >> 24u64) & 0xff) as u8,
            ((a >> 16u64) & 0xff) as u8 == ((b >> 16u64) & 0xff) as u8,
            ((a >> 8u64) & 0xff) as u8 == ((b >> 8u64) & 0xff) as u8,
            ((a >> 0u64) & 0xff) as u8 == ((b >> 0u64) & 0xff) as u8,
    ;
}

/// Two packets of one key have the same nonce only if they have the same number.
pub proof fn law_nonces_are_unique(iv: Seq<u8>, a: u64, b: u64)
    requires
        nonce_of(iv, a) == nonce_of(iv, b),
    ensures
        a == b,
{
    assert forall|i: int| 4 <= i < 12 implies #[trigger] number_byte(a, i) == number_byte(b, i) by {
        assert(nonce_of(iv, a)[i] == number_byte(a, i) ^ iv[i]);
        assert(nonce_of(iv, b)[i] == number_byte(b, i) ^ iv[i]);
        lemma_same_mask(number_byte(a, i), number_byte(b, i), iv[i]);
    }
    lemma_number_bytes(a, b);
}

/// A packet is sealed under its own nonce, the one that belongs to its number, and opened under
/// the same.
pub proof fn law_packets_are_sealed_under_their_nonce(
    key: Aes128GcmPacketKey,
    packet_number: u64,
    aad: Seq<u8>,
    plain: Seq<u8>,
    body: Seq<u8>,
    tag: Seq<u8>,
)
    requires
        tag.len() == 16,
    ensures
        key.sealed(packet_number, aad, plain) == sealed_128(
            key.key@,
            nonce_of(key.iv@, packet_number),
            aad,
            plain,
        ),
        key.opened(packet_number, aad, body + tag) == opened_128(
            key.key@,
            nonce_of(key.iv@, packet_number),
            aad,
            body,
            tag,
        ),
{
    let payload = body + tag;
    assert(payload.take(payload.len() - 16) == body);
    assert(payload.skip(payload.len() - 16) == tag);
}

/// What is shorter than a tag does not open.
pub proof fn law_short_packets_do_not_open(
    key: Aes128GcmPacketKey,
    packet_number: u64,
    aad: Seq<u8>,
    payload: Seq<u8>,
)
    requires
        payload.len() < 16,
    ensures
        key.opened(packet_number, aad, payload) is None,
{
}

proof fn lemma_number_byte(packet_number: u64)
    ensures
        number_byte(packet_number, 4) == packet_number as int / 0x100_0000_0000_0000,
        number_byte(packet_number, 5) == packet_number as int / 0x1_0000_0000_0000 % 256,
        number_byte(packet_number, 6) == packet_number as int / 0x100_0000_0000 % 256,
        number_byte(packet_number, 7) == packet_number as int / 0x1_0000_0000 % 256,
        number_byte(packet_number, 8) == packet_number as int / 0x100_0000 % 256,
        number_byte(packet_number, 9) == packet_number as int / 0x1_0000 % 256,
        number_byte(packet_number, 10) == packet_number as int / 0x100 % 256,
        number_byte(packet_number, 11) == packet_number as int % 256,
{
    let n = packet_number;
    assert((n >> 56u64) & 0xff == n / 0x100_0000_0000_0000) by (bit_vector);
    assert((n >> 48u64) & 0xff == n / 0x1_0000_0000_0000 % 256) by (bit_vector);
    assert((n >> 40u64) & 0xff == n / 0x100_0000_0000 % 256) by (bit_vector);
    assert((n >> 32u64) & 0xff == n / 0x1_0000_0000 % 256) by (bit_vector);
    assert((n >> 24u64) & 0xff == n / 0x100_0000 % 256) by (bit_vector);
    assert((n >> 16u64) & 0xff == n / 0x1_0000 % 256) by (bit_vector);
    assert((n >> 8u64) & 0xff == n / 0x100 % 256) by (bit_vector);
    assert((n >> 0u64) & 0xff == n % 256) by (bit_vector);
}

/// A number below 256 to the eighth is the sum of its eight bytes.
proof fn lemma_sum_of_bytes(n: int)
    requires
        0 <= n,
    ensures
        n == (n / 0x100_0000_0000_0000) * 0x100_0000_0000_0000 + (n / 0x1_0000_0000_0000 % 256)
            * 0x1_0000_0000_0000 + (n / 0x100_0000_0000 % 256) * 0x100_0000_0000 + (n
            / 0x1_0000_0000 % 256) * 0x1_0000_0000 + (n / 0x100_0000 % 256) * 0x100_0000 + (n
            / 0x1_0000 % 256) * 0x1_0000 + (n / 0x100 % 256) * 0x100 + n % 256,
{
    lemma_last_byte(n, 1);
    lemma_last_byte(n, 0x100);
    lemma_last_byte(n, 0x1_0000);
    lemma_last_byte(n, 0x100_0000);
    lemma_last_byte(n, 0x1_0000_0000);
    lemma_last_byte(n, 0x100_0000_0000);
    lemma_last_byte(n, 0x1_0000_0000_0000);
}

proof fn lemma_last_byte(n: int, unit: int)
    requires
        0 <= n,
        0 < unit,
    ensures
        n / unit == (n / (unit * 256)) * 256 + n / unit % 256,
{
    vstd::arithmetic::div_mod::lemma_div_denominator(n, unit, 256);
}

proof fn lemma_combined_twice(byte: u8, iv: u8)
    ensures
        (byte ^ iv) ^ iv == byte,
        0u8 ^ iv == iv,
{
    assert((byte ^ iv) ^ iv == byte) by (bit_vector);
    assert(0u8 ^ iv == iv) by (bit_vector);
}

/// The initialisation vector, taken off a nonce again, leaves the packet number: twelve bytes
/// of which the first four are zero and the others are the number, the most significant first.
pub proof fn law_nonce_holds_the_number(iv: Seq<u8>, packet_number: u64)
    requires
        iv.len() == 12,
    ensures
        nonce_of(iv, packet_number).len() == 12,
        forall|i: int| 0 <= i < 4 ==> #[trigger] nonce_of(iv, packet_number)[i] == iv[i],
        packet_number == (nonce_of(iv, packet_number)[4] ^ iv[4]) * 0x100_0000_0000_0000 + (
        nonce_of(iv, packet_number)[5] ^ iv[5]) * 0x1_0000_0000_0000 + (nonce_of(
            iv,
            packet_number,
        )[6] ^ iv[6]) * 0x100_0000_0000 + (nonce_of(iv, packet_number)[7] ^ iv[7])
            * 0x1_0000_0000 + (nonce_of(iv, packet_number)[8] ^ iv[8]) * 0x100_0000 + (nonce_of(
            iv,
            packet_number,
        )[9] ^ iv[9]) * 0x1_0000 + (nonce_of(iv, packet_number)[10] ^ iv[10]) * 0x100 + (
        nonce_of(iv, packet_number)[11] ^ iv[11]),
{
    lemma_number_byte(packet_number);
    lemma_sum_of_bytes(packet_number as int);
    lemma_nonce_byte(iv, packet_number, 4);
    lemma_nonce_byte(iv, packet_number, 5);
    lemma_nonce_byte(iv, packet_number, 6);
    lemma_nonce_byte(iv, packet_number, 7);
    lemma_nonce_byte(iv, packet_number, 8);
    lemma_nonce_byte(iv, packet_number, 9);
    lemma_nonce_byte(iv, packet_number, 10);
    lemma_nonce_byte(iv, packet_number, 11);
    assert forall|i: int| 0 <= i < 4 implies #[trigger] nonce_of(iv, packet_number)[i] == iv[i] by {
        lemma_combined_twice(0, iv[i]);
    }
}

proof fn lemma_nonce_byte(iv: Seq<u8>, packet_number: u64, i: int)
    requires
        0 <= i < 12,
    ensures
        nonce_of(iv, packet_number)[i] ^ iv[i] == number_byte(packet_number, i),
{
    lemma_combined_twice(number_byte(packet_number, i), iv[i]);
}

} // verus!
