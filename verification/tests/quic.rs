use moq_pure::quic::header::{apply_mask, Aes128HeaderProtectionKey, HeaderError};
use moq_pure::quic::packet::{Aes128GcmPacketKey, PacketError, AES_128_GCM_QUIC};
use moq_pure::quic::token::{
    aes128_gcm_open_tag, aes128_gcm_seal_tag, CryptoError, PureAeadKey, PureHandshakeTokenKey,
    PureHmacKey,
};

fn bytes(text: &str) -> Vec<u8> {
    hex::decode(text).unwrap()
}

fn key16(text: &str) -> [u8; 16] {
    bytes(text).try_into().unwrap()
}

fn nonce12(text: &str) -> [u8; 12] {
    bytes(text).try_into().unwrap()
}

const CLIENT_HP: &str = "9f50449e04a0e810283a1e9933adedd2";
const CLIENT_SAMPLE: &str = "d1b1c98dd7689fb8ec11d242b123dc9b";
const SERVER_KEY: &str = "cf3a5331653c364c88f0f379b6067e37";
const SERVER_IV: &str = "0ac1493ca1905853b0bba03e";
const SERVER_HP: &str = "c206b8d9b9f0f37644430b490eeaa314";
const SERVER_SAMPLE: &str = "2cd0991cd25b0aac406a5816b6394100";
const SERVER_HEADER: &str = "c1000000010008f067a5502a4262b50040750001";
const SERVER_CONTENT: &str = "02000000000600405a020000560303eefce7f7b37ba1d1632e96677825ddf73988cfc79825df566dc5430b9a045a1200130100002e00330024001d00209d3c940d89690b84d08a60993c144eca684d1081287c834d5311bcf32bb9da1a002b00020304";
const SERVER_SEALED: &str = "5a482cd0991cd25b0aac406a5816b6394100f37a1c69797554780bb38cc5a99f5ede4cf73c3ec2493a1839b3dbcba3f6ea46c5b7684df3548e7ddeb9c3bf9c73cc3f3bded74b562bfb19fb84022f8ef4cdd93795d77d06edbb7aaf2f58891850abbdca3d20398c276456cbc42158407dd074ee";

fn server_key() -> Aes128GcmPacketKey {
    AES_128_GCM_QUIC.packet_key(&bytes(SERVER_KEY), nonce12(SERVER_IV))
}

#[test]
fn masks_come_from_samples() {
    let client = Aes128HeaderProtectionKey::new(&bytes(CLIENT_HP));
    assert_eq!(client.new_mask(&bytes(CLIENT_SAMPLE)).unwrap().to_vec(), bytes("437b9aec36"));
    let server = AES_128_GCM_QUIC.header_protection_key(&bytes(SERVER_HP));
    let mut sample = bytes(SERVER_SAMPLE);
    assert_eq!(server.new_mask(&sample).unwrap().to_vec(), bytes("2ec0d8356a"));
    sample.push(0xff);
    assert_eq!(server.new_mask(&sample).unwrap().to_vec(), bytes("2ec0d8356a"));
    assert_eq!(server.sample_len(), 16);
}

#[test]
fn a_long_header_is_protected() {
    let client = Aes128HeaderProtectionKey::new(&bytes(CLIENT_HP));
    let mut first: u8 = 0xc3;
    let mut number = bytes("00000002");
    client.encrypt_in_place(&bytes(CLIENT_SAMPLE), &mut first, &mut number).unwrap();
    assert_eq!(first, 0xc0);
    assert_eq!(number, bytes("7b9aec34"));
    client.decrypt_in_place(&bytes(CLIENT_SAMPLE), &mut first, &mut number).unwrap();
    assert_eq!(first, 0xc3);
    assert_eq!(number, bytes("00000002"));
}

#[test]
fn a_short_number_is_protected_alone() {
    let server = Aes128HeaderProtectionKey::new(&bytes(SERVER_HP));
    let mut first: u8 = 0xc1;
    let mut number = bytes("00010203");
    server.encrypt_in_place(&bytes(SERVER_SAMPLE), &mut first, &mut number).unwrap();
    assert_eq!(first, 0xcf);
    assert_eq!(number, bytes("c0d90203"));
}

#[test]
fn five_bits_of_a_short_header_are_protected() {
    let mask: [u8; 5] = [0xff, 1, 2, 3, 4];
    let mut first: u8 = 0x42;
    let mut number = vec![0x10u8, 0x20, 0x30, 0x40];
    assert_eq!(apply_mask(&mask, &mut first, &mut number, false), Ok(()));
    assert_eq!(first, 0x5d);
    assert_eq!(number, [0x11, 0x22, 0x33, 0x40]);
    assert_eq!(apply_mask(&mask, &mut first, &mut number, true), Ok(()));
    assert_eq!(first, 0x42);
    assert_eq!(number, [0x10, 0x20, 0x30, 0x40]);
}

#[test]
fn any_mask_comes_off_again() {
    let mask: [u8; 5] = [0x5a, 0x11, 0x22, 0x33, 0x44];
    for value in 0u8..=255 {
        for len in 0usize..=4 {
            let mut first: u8 = value;
            let mut number = vec![0x99u8; len];
            apply_mask(&mask, &mut first, &mut number, false).unwrap();
            assert_eq!(first & 0x80, value & 0x80);
            apply_mask(&mask, &mut first, &mut number, true).unwrap();
            assert_eq!((first, number), (value, vec![0x99u8; len]));
            let mut number = vec![0x99u8; len];
            apply_mask(&mask, &mut first, &mut number, true).unwrap();
            apply_mask(&mask, &mut first, &mut number, false).unwrap();
            assert_eq!((first, number), (value, vec![0x99u8; len]));
        }
    }
}

#[test]
fn headers_that_cannot_be_protected() {
    let client = Aes128HeaderProtectionKey::new(&bytes(CLIENT_HP));
    let mut first: u8 = 0xc3;
    let mut number = vec![1u8, 2, 3, 4, 5];
    let short = client.encrypt_in_place(&[0u8; 15], &mut first, &mut number);
    assert_eq!(short, Err(HeaderError::SampleTooShort));
    assert_eq!(HeaderError::SampleTooShort.message(), "sample of invalid length");
    let long = client.decrypt_in_place(&[0u8; 16], &mut first, &mut number);
    assert_eq!(long, Err(HeaderError::PacketNumberTooLong));
    assert_eq!(HeaderError::PacketNumberTooLong.message(), "packet number too long");
    assert_eq!((first, number), (0xc3, vec![1, 2, 3, 4, 5]));
}

#[test]
fn a_packet_is_sealed() {
    let mut payload = bytes(SERVER_CONTENT);
    let tag = server_key().encrypt_in_place(1, &bytes(SERVER_HEADER), &mut payload).unwrap();
    payload.extend_from_slice(&tag);
    assert_eq!(payload, bytes(SERVER_SEALED));
}

#[test]
fn a_sealed_packet_opens() {
    let mut payload = bytes(SERVER_SEALED);
    let content = server_key().decrypt_in_place(1, &bytes(SERVER_HEADER), &mut payload);
    assert_eq!(content, Ok(bytes(SERVER_CONTENT).as_slice()));
    let at = bytes(SERVER_CONTENT).len();
    assert_eq!(payload[at..], bytes(SERVER_SEALED)[at..]);
}

#[test]
fn a_changed_packet_does_not_open() {
    let key = server_key();
    let header = bytes(SERVER_HEADER);
    for at in [0usize, 50, 98, 99, 114] {
        let mut payload = bytes(SERVER_SEALED);
        payload[at] ^= 1;
        let changed = payload.clone();
        let opened = key.decrypt_in_place(1, &header, &mut payload);
        assert_eq!(opened, Err(PacketError::DecryptError));
        assert_eq!(payload, changed);
    }
    let mut payload = bytes(SERVER_SEALED);
    assert_eq!(key.decrypt_in_place(2, &header, &mut payload), Err(PacketError::DecryptError));
    assert_eq!(key.decrypt_in_place(1, &header[1..], &mut payload), Err(PacketError::DecryptError));
    let mut short = vec![0u8; 15];
    assert_eq!(key.decrypt_in_place(1, &header, &mut short), Err(PacketError::DecryptError));
}

#[test]
fn packet_numbers_fill_the_nonce() {
    let key = server_key();
    let mut tags = Vec::new();
    for number in [0u64, 1, 256, 1 << 32, u64::MAX] {
        let mut payload = b"ping".to_vec();
        let tag = key.encrypt_in_place(number, b"", &mut payload).unwrap();
        assert!(!tags.contains(&tag));
        tags.push(tag);
        payload.extend_from_slice(&tag);
        assert_eq!(key.decrypt_in_place(number, b"", &mut payload), Ok(b"ping".as_slice()));
    }
}

#[test]
fn limits_of_a_packet_key() {
    let key = server_key();
    assert_eq!(key.tag_len(), 16);
    assert_eq!(key.integrity_limit(), 1 << 52);
    assert_eq!(key.confidentiality_limit(), 1 << 23);
    assert_eq!(AES_128_GCM_QUIC.aead_key_len(), 16);
}

#[test]
fn signatures_are_verified() {
    let key = PureHmacKey::new(&[0x0bu8; 20]);
    let mut out = vec![0xeeu8; 34];
    key.sign(b"Hi There", &mut out);
    let code = bytes("b0344c61d8db38535ca8afceaf0bf12b881dc200c9833da726e9376c2e32cff7");
    assert_eq!(out[..32], code);
    assert_eq!(out[32..], [0xee, 0xee]);
    assert_eq!(key.signature_len(), 32);
    assert_eq!(key.verify(b"Hi There", &code), Ok(()));
    assert_eq!(key.verify(b"Hi there", &code), Err(CryptoError));
    assert_eq!(key.verify(b"Hi There", &code[..31]), Err(CryptoError));
    assert_eq!(key.verify(b"Hi There", &out), Err(CryptoError));
}

#[test]
fn token_keys_are_derived() {
    let key = PureHandshakeTokenKey::from_secret(&[0x0bu8; 22]);
    let derived = key.aead_from_hkdf(b"");
    let expected = bytes("8da4e775a563c18f715f802a063c5a31b8a11f5c5ee1879ec3454e5f3c738d2d");
    assert_eq!(derived.key.to_vec(), expected);
    assert_ne!(key.aead_from_hkdf(b"x").key, derived.key);
}

#[test]
fn tokens_are_sealed_and_opened() {
    let key = PureAeadKey { key: [0u8; 32] };
    let mut empty = Vec::new();
    key.seal(&mut empty, b"").unwrap();
    assert_eq!(empty, bytes("530f8afbc74536b9a963b4f1c4cb738b"));
    let mut data = vec![0u8; 16];
    key.seal(&mut data, b"").unwrap();
    assert_eq!(data, bytes("cea7403d4d606b6e074ec5d3baf39d18d0d1c8a799996bf0265b98b5d48ab919"));
    assert_eq!(key.open(&mut data, b"").unwrap(), [0u8; 16]);
    assert_eq!(data[16..], bytes("d0d1c8a799996bf0265b98b5d48ab919"));
}

#[test]
fn a_changed_token_does_not_open() {
    let key = PureHandshakeTokenKey::from_secret(b"secret").aead_from_hkdf(b"random");
    let mut data = b"token".to_vec();
    key.seal(&mut data, b"address").unwrap();
    let sealed = data.clone();
    assert_eq!(key.open(&mut data, b"elsewhere"), Err(CryptoError));
    assert_eq!(data, sealed);
    data[0] ^= 1;
    assert_eq!(key.open(&mut data, b"address"), Err(CryptoError));
    data[0] ^= 1;
    assert_eq!(key.open(&mut data[..15], b"address"), Err(CryptoError));
    assert_eq!(key.open(&mut data, b"address").unwrap(), b"token");
}

#[test]
fn retry_packets_are_tagged() {
    let key = key16("be0c690b9f66575a1d766b54e368c84e");
    let nonce = nonce12("461599d35d632bf2239825bb");
    let packet = bytes("088394c8f03e515708ff000000010008f067a5502a4262b5746f6b656e");
    let tag = aes128_gcm_seal_tag(&key, &nonce, &packet);
    assert_eq!(tag.to_vec(), bytes("04a265ba2eff4d829058fb3f0f2496ba"));
    assert!(aes128_gcm_open_tag(&key, &nonce, &packet, &tag));
    assert!(!aes128_gcm_open_tag(&key, &nonce, &packet[1..], &tag));
    assert!(!aes128_gcm_open_tag(&key, &nonce, &packet, &tag[1..]));
    let mut changed = tag;
    changed[15] ^= 1;
    assert!(!aes128_gcm_open_tag(&key, &nonce, &packet, &changed));
}
