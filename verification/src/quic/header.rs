//! Header protection with AES-128.

use aes::cipher::{BlockEncrypt, KeyInit};
use aes::Aes128;
use vstd::prelude::*;

verus! {

/// The bytes of a sample that make a mask.
pub const SAMPLE_LEN: usize = 16;

/// The longest packet number of a header.
pub const PACKET_NUMBER_LEN: usize = 4;

/// The bit of the first byte that marks a long header.
pub const LONG_HEADER_FORM: u8 = 0x80;

/// What `Aes128::encrypt_block` makes of a block under a key.
pub uninterp spec fn aes128(key: Seq<u8>, block: Seq<u8>) -> Seq<u8>;

/// `Aes128::encrypt_block` encrypts one block under a key.
#[verifier::external_body]
fn encrypt_block(key: &[u8; 16], block: &[u8; 16]) -> (out: [u8; 16])
    ensures
        out@ == aes128(key@, block@),
{
    let mut out = (*block).into();
    Aes128::new(&(*key).into()).encrypt_block(&mut out);
    out.into()
}

/// The first 16 bytes.
pub(crate) fn first_bytes(bytes: &[u8]) -> (out: [u8; 16])
    requires
        bytes@.len() >= 16,
    ensures
        out@ == bytes@.take(16),
{
    let mut out: [u8; 16] = [0u8; 16];
    let mut i: usize = 0;
    while i < 16
        invariant
            i <= 16,
            bytes@.len() >= 16,
            out@.take(i as int) == bytes@.take(i as int),
        decreases 16 - i,
    {
        out[i] = bytes[i];
        i = i + 1;
        assert(out@.take(i as int) == out@.take(i - 1).push(out@[i - 1]));
        assert(bytes@.take(i as int) == bytes@.take(i - 1).push(bytes@[i - 1]));
    }
    assert(out@ == out@.take(16));
    out
}

/// Why a header could not be protected or unprotected.
#[derive(Clone, Copy, PartialEq, Eq, Structural, Debug)]
pub enum HeaderError {
    SampleTooShort,
    PacketNumberTooLong,
}

impl HeaderError {
    /// What the error says.
    pub open spec fn text(self) -> Seq<char> {
        match self {
            HeaderError::SampleTooShort => "sample of invalid length"@,
            HeaderError::PacketNumberTooLong => "packet number too long"@,
        }
    }

    /// What the error says.
    pub fn message(&self) -> (message: String)
        ensures
            message@ == self.text(),
    {
        match self {
            HeaderError::SampleTooShort => "sample of invalid length".to_owned(),
            HeaderError::PacketNumberTooLong => "packet number too long".to_owned(),
        }
    }
}

/// The mask that a sample makes: the first five bytes of its first block, encrypted.
pub open spec fn header_mask(key: Seq<u8>, sample: Seq<u8>) -> Seq<u8> {
    aes128(key, sample.take(SAMPLE_LEN as int)).take(5)
}

/// Whether the first byte of a header marks a long header.
pub open spec fn is_long(first: u8) -> bool {
    first & LONG_HEADER_FORM == LONG_HEADER_FORM
}

/// The bits of the first byte that are protected: four in a long header, five in a short one.
pub open spec fn protected_bits(first: u8) -> u8 {
    if is_long(first) {
        0x0f
    } else {
        0x1f
    }
}

/// The first byte of a header under a mask.
pub open spec fn masked_first(mask: Seq<u8>, first: u8) -> u8 {
    first ^ (mask[0] & protected_bits(first))
}

/// The length of the packet number that an unprotected first byte states.
pub open spec fn number_len(plain: u8) -> int {
    (plain & 0x03) + 1
}

/// A packet number field whose first `len` bytes are put under a mask.
pub open spec fn masked_number(mask: Seq<u8>, number: Seq<u8>, len: int) -> Seq<u8> {
    Seq::new(
        number.len(),
        |i: int|
            if i < len {
                number[i] ^ mask[i + 1]
            } else {
                number[i]
            },
    )
}

/// A header, first byte and packet number field, after protection.
pub open spec fn protected(mask: Seq<u8>, first: u8, number: Seq<u8>) -> (u8, Seq<u8>) {
    (masked_first(mask, first), masked_number(mask, number, number_len(first)))
}

/// A protected header after its protection is removed.
pub open spec fn unprotected(mask: Seq<u8>, first: u8, number: Seq<u8>) -> (u8, Seq<u8>) {
    let plain = masked_first(mask, first);
    (plain, masked_number(mask, number, number_len(plain)))
}

/// What keeps a header from being protected or unprotected, if anything.
pub open spec fn header_fault(sample: nat, number: nat) -> Result<(), HeaderError> {
    if sample < SAMPLE_LEN {
        Err(HeaderError::SampleTooShort)
    } else if number > PACKET_NUMBER_LEN {
        Err(HeaderError::PacketNumberTooLong)
    } else {
        Ok(())
    }
}

/// Puts a header under a mask. `masked` says that it is under the mask already, which then is
/// taken off.
pub fn apply_mask(
    mask: &[u8; 5],
    first: &mut u8,
    packet_number: &mut [u8],
    masked: bool,
) -> (result: Result<(), HeaderError>)
    ensures
        result == header_fault(SAMPLE_LEN as nat, old(packet_number)@.len()),
        result is Ok ==> (*final(first), final(packet_number)@) == (if masked {
            unprotected(mask@, *old(first), old(packet_number)@)
        } else {
            protected(mask@, *old(first), old(packet_number)@)
        }),
        result is Err ==> *final(first) == *old(first) && final(packet_number)@ == old(
            packet_number,
        )@,
{
    if packet_number.len() > PACKET_NUMBER_LEN {
        return Err(HeaderError::PacketNumberTooLong);
    }
    let bits: u8 = if *first & LONG_HEADER_FORM == LONG_HEADER_FORM {
        0x0f
    } else {
        0x1f
    };
    let changed: u8 = *first ^ (mask[0] & bits);
    let plain: u8 = if masked {
        changed
    } else {
        *first
    };
    assert(plain & 0x03 <= 3) by (bit_vector);
    let pn_len: usize = (plain & 0x03) as usize + 1;
    *first = changed;
    let ghost before = packet_number@;
    let mut i: usize = 0;
    while i < packet_number.len() && i < pn_len
        invariant
            packet_number@.len() == before.len() <= PACKET_NUMBER_LEN,
            i <= before.len(),
            i <= pn_len,
            forall|j: int|
                0 <= j < before.len() ==> #[trigger] packet_number@[j] == (if j < i {
                    before[j] ^ mask@[j + 1]
                } else {
                    before[j]
                }),
        decreases pn_len - i,
    {
        packet_number[i] = packet_number[i] ^ mask[i + 1];
        i = i + 1;
    }
    assert(packet_number@ == masked_number(mask@, before, pn_len as int));
    Ok(())
}

/// A key for the protection of headers.
pub struct Aes128HeaderProtectionKey {
    pub key: [u8; 16],
}

impl Aes128HeaderProtectionKey {
    /// A key from its bytes.
    pub fn new(key: &[u8]) -> (header: Self)
        requires
            key@.len() == 16,
        ensures
            header.key@ == key@,
    {
        let key_bytes: [u8; 16] = first_bytes(key);
        assert(key@.take(16) == key@);
        Aes128HeaderProtectionKey { key: key_bytes }
    }

    /// The mask that a sample makes.
    pub fn new_mask(&self, sample: &[u8]) -> (mask: Result<[u8; 5], HeaderError>)
        ensures
            mask is Ok <==> sample@.len() >= SAMPLE_LEN,
            mask is Ok ==> mask->Ok_0@ == header_mask(self.key@, sample@),
            mask is Ok ==> aes128(self.key@, sample@.subrange(0, 16)).len() == 16,
            mask is Ok ==> forall|i: int|
                0 <= i < 5 ==> #[trigger] mask->Ok_0@[i] == aes128(
                    self.key@,
                    sample@.subrange(0, 16),
                )[i],
            mask is Err ==> mask->Err_0 == HeaderError::SampleTooShort,
    {
        if sample.len() < SAMPLE_LEN {
            return Err(HeaderError::SampleTooShort);
        }
        let sampled: [u8; 16] = first_bytes(sample);
        let block: [u8; 16] = encrypt_block(&self.key, &sampled);
        let mask: [u8; 5] = [block[0], block[1], block[2], block[3], block[4]];
        assert(sample@.take(16) == sample@.subrange(0, 16));
        assert(mask@ == header_mask(self.key@, sample@));
        Ok(mask)
    }

    fn xor_in_place(
        &self,
        sample: &[u8],
        first: &mut u8,
        packet_number: &mut [u8],
        masked: bool,
    ) -> (result: Result<(), HeaderError>)
        ensures
            result == header_fault(sample@.len(), old(packet_number)@.len()),
            result is Ok ==> aes128(self.key@, sample@.subrange(0, 16)).len() == 16,
            result is Ok ==> (*final(first), final(packet_number)@) == (if masked {
                unprotected(header_mask(self.key@, sample@), *old(first), old(packet_number)@)
            } else {
                protected(header_mask(self.key@, sample@), *old(first), old(packet_number)@)
            }),
            result is Err ==> *final(first) == *old(first) && final(packet_number)@ == old(
                packet_number,
            )@,
    {
        match self.new_mask(sample) {
            Err(error) => Err(error),
            Ok(mask) => apply_mask(&mask, first, packet_number, masked),
        }
    }

    /// Protects the first byte of a header and its packet number.
    pub fn encrypt_in_place(
        &self,
        sample: &[u8],
        first: &mut u8,
        packet_number: &mut [u8],
    ) -> (result: Result<(), HeaderError>)
        ensures
            result == header_fault(sample@.len(), old(packet_number)@.len()),
            result is Ok ==> (*final(first), final(packet_number)@) == protected(
                header_mask(self.key@, sample@),
                *old(first),
                old(packet_number)@,
            ),
            result is Err ==> *final(first) == *old(first) && final(packet_number)@ == old(
                packet_number,
            )@,
            result == Err::<(), HeaderError>(HeaderError::SampleTooShort) <==> sample@.len() < 16,
            result == Err::<(), HeaderError>(HeaderError::PacketNumberTooLong) <==> sample@.len()
                >= 16 && old(packet_number)@.len() > 4,
            result is Ok <==> sample@.len() >= 16 && old(packet_number)@.len() <= 4,
            result is Ok ==> *final(first) == *old(first) ^ (aes128(
                self.key@,
                sample@.subrange(0, 16),
            )[0] & (if *old(first) >= 0x80 {
                0x0fu8
            } else {
                0x1fu8
            })),
            result is Ok ==> final(packet_number)@.len() == old(packet_number)@.len(),
            result is Ok ==> forall|i: int|
                0 <= i < old(packet_number)@.len() && i <= (*old(first) & 0x03)
                    ==> #[trigger] final(packet_number)@[i] == old(packet_number)@[i] ^ aes128(
                    self.key@,
                    sample@.subrange(0, 16),
                )[i + 1],
            result is Ok ==> forall|i: int|
                0 <= i < old(packet_number)@.len() && i > (*old(first) & 0x03)
                    ==> #[trigger] final(packet_number)@[i] == old(packet_number)@[i],
    {
        let result = self.xor_in_place(sample, first, packet_number, false);
        proof {
            if result is Ok {
                law_header_mask_bytes(self.key@, sample@);
                law_protected_bytes(header_mask(self.key@, sample@), *old(first), old(packet_number)@);
            }
        }
        result
    }

    /// Removes the protection of the first byte of a header and its packet number.
    pub fn decrypt_in_place(
        &self,
        sample: &[u8],
        first: &mut u8,
        packet_number: &mut [u8],
    ) -> (result: Result<(), HeaderError>)
        ensures
            result == header_fault(sample@.len(), old(packet_number)@.len()),
            result is Ok ==> (*final(first), final(packet_number)@) == unprotected(
                header_mask(self.key@, sample@),
                *old(first),
                old(packet_number)@,
            ),
            result is Err ==> *final(first) == *old(first) && final(packet_number)@ == old(
                packet_number,
            )@,
            result == Err::<(), HeaderError>(HeaderError::SampleTooShort) <==> sample@.len() < 16,
            result == Err::<(), HeaderError>(HeaderError::PacketNumberTooLong) <==> sample@.len()
                >= 16 && old(packet_number)@.len() > 4,
            result is Ok <==> sample@.len() >= 16 && old(packet_number)@.len() <= 4,
            result is Ok ==> *final(first) == *old(first) ^ (aes128(
                self.key@,
                sample@.subrange(0, 16),
            )[0] & (if *old(first) >= 0x80 {
                0x0fu8
            } else {
                0x1fu8
            })),
            result is Ok ==> final(packet_number)@.len() == old(packet_number)@.len(),
            result is Ok ==> forall|i: int|
                0 <= i < old(packet_number)@.len() && i <= (*final(first) & 0x03)
                    ==> #[trigger] final(packet_number)@[i] == old(packet_number)@[i] ^ aes128(
                    self.key@,
                    sample@.subrange(0, 16),
                )[i + 1],
            result is Ok ==> forall|i: int|
                0 <= i < old(packet_number)@.len() && i > (*final(first) & 0x03)
                    ==> #[trigger] final(packet_number)@[i] == old(packet_number)@[i],
    {
        let result = self.xor_in_place(sample, first, packet_number, true);
        proof {
            if result is Ok {
                law_header_mask_bytes(self.key@, sample@);
                law_unprotected_bytes(header_mask(self.key@, sample@), *old(first), old(packet_number)@);
            }
        }
        result
    }

    /// The bytes of a sample.
    pub fn sample_len(&self) -> (len: usize)
        ensures
            len == SAMPLE_LEN,
    {
        SAMPLE_LEN
    }
}

proof fn lemma_mask_twice(byte: u8, mask: u8)
    ensures
        (byte ^ mask) ^ mask == byte,
{
    assert((byte ^ mask) ^ mask == byte) by (bit_vector);
}

/// Protection keeps the form of a header and the bits that it does not cover.
pub proof fn law_form_is_kept(mask: Seq<u8>, first: u8)
    ensures
        is_long(masked_first(mask, first)) == is_long(first),
        masked_first(mask, first) & !protected_bits(first) == first & !protected_bits(first),
{
    let m = mask[0];
    assert(((first ^ (m & 0x0f)) & 0x80 == 0x80) == (first & 0x80 == 0x80)) by (bit_vector);
    assert(((first ^ (m & 0x1f)) & 0x80 == 0x80) == (first & 0x80 == 0x80)) by (bit_vector);
    assert((first ^ (m & 0x0f)) & !0x0f == first & !0x0f) by (bit_vector);
    assert((first ^ (m & 0x1f)) & !0x1f == first & !0x1f) by (bit_vector);
}

/// A mask that is put on the first byte twice changes nothing.
proof fn lemma_first_twice(mask: Seq<u8>, first: u8)
    ensures
        masked_first(mask, masked_first(mask, first)) == first,
{
    law_form_is_kept(mask, first);
    lemma_mask_twice(first, mask[0] & protected_bits(first));
}

/// A mask that is put on a packet number twice changes nothing.
proof fn lemma_number_twice(mask: Seq<u8>, number: Seq<u8>, len: int)
    ensures
        masked_number(mask, masked_number(mask, number, len), len) == number,
{
    let once = masked_number(mask, number, len);
    assert forall|i: int| 0 <= i < number.len() implies #[trigger] masked_number(
        mask,
        once,
        len,
    )[i] == number[i] by {
        lemma_mask_twice(number[i], mask[i + 1]);
    }
    assert(masked_number(mask, once, len) == number);
}

/// Removing the protection of a header gives the header back that was protected.
pub proof fn law_unprotect_undoes_protect(mask: Seq<u8>, first: u8, number: Seq<u8>)
    ensures
        ({
            let (sent, field) = protected(mask, first, number);
            unprotected(mask, sent, field) == (first, number)
        }),
{
    lemma_first_twice(mask, first);
    lemma_number_twice(mask, number, number_len(first));
}

/// Protecting an unprotected header gives the header back that was received.
pub proof fn law_protect_undoes_unprotect(mask: Seq<u8>, first: u8, number: Seq<u8>)
    ensures
        ({
            let (plain, field) = unprotected(mask, first, number);
            protected(mask, plain, field) == (first, number)
        }),
{
    lemma_first_twice(mask, first);
    lemma_number_twice(mask, number, number_len(masked_first(mask, first)));
}

/// A header is long where the first bit of its first byte is set.
proof fn lemma_long_is_high(first: u8)
    ensures
        is_long(first) <==> first >= 0x80,
{
    assert(first & 0x80 == 0x80 <==> first >= 0x80) by (bit_vector);
}

/// The mask of a sample is the start of what its first 16 bytes are encrypted to; what follows
/// them does not matter.
pub proof fn law_header_mask_bytes(key: Seq<u8>, sample: Seq<u8>)
    requires
        sample.len() >= 16,
        aes128(key, sample.subrange(0, 16)).len() >= 5,
    ensures
        header_mask(key, sample).len() == 5,
        forall|i: int|
            0 <= i < 5 ==> #[trigger] header_mask(key, sample)[i] == aes128(
                key,
                sample.subrange(0, 16),
            )[i],
{
    assert(sample.take(16) == sample.subrange(0, 16));
}

/// Protection masks the low four bits of the first byte of a long header and the low five of a
/// short one. It masks as many bytes of the number as the first byte states, which is its low
/// two bits and one more, and leaves the bytes behind them alone.
pub proof fn law_protected_bytes(mask: Seq<u8>, first: u8, number: Seq<u8>)
    ensures
        protected(mask, first, number).0 == first ^ (mask[0] & (if first >= 0x80 {
            0x0fu8
        } else {
            0x1fu8
        })),
        protected(mask, first, number).1.len() == number.len(),
        forall|i: int|
            0 <= i < number.len() && i <= (first & 0x03) ==> #[trigger] protected(
                mask,
                first,
                number,
            ).1[i] == number[i] ^ mask[i + 1],
        forall|i: int|
            0 <= i < number.len() && i > (first & 0x03) ==> #[trigger] protected(
                mask,
                first,
                number,
            ).1[i] == number[i],
{
    lemma_long_is_high(first);
}

/// Removing protection unmasks the low four bits of the first byte of a long header and the low
/// five of a short one. It unmasks as many bytes of the number as the unmasked first byte states,
/// which is its low two bits and one more, and leaves the bytes behind them alone.
pub proof fn law_unprotected_bytes(mask: Seq<u8>, first: u8, number: Seq<u8>)
    ensures
        unprotected(mask, first, number).0 == first ^ (mask[0] & (if first >= 0x80 {
            0x0fu8
        } else {
            0x1fu8
        })),
        unprotected(mask, first, number).1.len() == number.len(),
        forall|i: int|
            0 <= i < number.len() && i <= (unprotected(mask, first, number).0 & 0x03) ==> #[trigger] unprotected(
                mask,
                first,
                number,
            ).1[i] == number[i] ^ mask[i + 1],
        forall|i: int|
            0 <= i < number.len() && i > (unprotected(mask, first, number).0 & 0x03) ==> #[trigger] unprotected(
                mask,
                first,
                number,
            ).1[i] == number[i],
{
    lemma_long_is_high(first);
}

} // verus!
