use aes::cipher::generic_array::GenericArray;
use aes::cipher::BlockEncrypt;
use aes::cipher::KeyInit as BlockKeyInit;
use aes::Aes128;
use aes_gcm::aead::Aead;
use aes_gcm::aead::Payload;
use aes_gcm::Aes128Gcm;
use hkdf::Hkdf;
use sha2::Sha256;

use quic_packet::ConnectionId;
use quic_packet::CryptoDx;
use quic_packet::Encoder;
use quic_packet::Error;
use quic_packet::PacketBuilder;
use quic_packet::PacketType;

const CLIENT_CID: &[u8] = &[0x83, 0x94, 0xc8, 0xf0, 0x3e, 0x51, 0x57, 0x08];
const SERVER_CID: &[u8] = &[0xf0, 0x67, 0xa5, 0x50, 0x2a, 0x42, 0x62, 0xb5];

/// The salt for Initial-packet key derivation at the wire version this
/// library writes.
const INITIAL_SALT: &[u8] = &[
    0xc3, 0xee, 0xf7, 0x12, 0xc7, 0x2e, 0xbb, 0x5a, 0x11, 0xa7, 0xd2, 0x43, 0x2b, 0xb4, 0x63,
    0x65, 0xbe, 0xf9, 0xf5, 0x02,
];

/// The fixed, publicly known secret behind the Retry integrity tag.
const RETRY_SECRET: &[u8] = &[
    0x65, 0x6e, 0x61, 0xe3, 0x36, 0xae, 0x94, 0x17, 0xf7, 0xf0, 0xed, 0xd8, 0xd7, 0x8d, 0x46,
    0x1e, 0x2a, 0xa7, 0x08, 0x4a, 0xba, 0x7a, 0x14, 0xc1, 0xe9, 0xf7, 0x26, 0xd5, 0x57, 0x09,
    0x16, 0x9a,
];

fn hkdf_expand_label(hk: &Hkdf<Sha256>, label: &[u8], len: usize) -> Vec<u8> {
    let mut info: Vec<u8> = Vec::new();
    info.push((len >> 8) as u8);
    info.push((len & 0xff) as u8);
    let mut full: Vec<u8> = b"tls13 ".to_vec();
    full.extend_from_slice(label);
    info.push(full.len() as u8);
    info.extend_from_slice(&full);
    info.push(0);
    let mut out = vec![0u8; len];
    hk.expand(&info, &mut out).expect("expand");
    out
}

/// An AES-128-GCM packet protector with AES-based header protection.
struct TestDx {
    key: Vec<u8>,
    iv: Vec<u8>,
    hp: Vec<u8>,
}

impl TestDx {
    fn from_secret(hk: &Hkdf<Sha256>) -> Self {
        TestDx {
            key: hkdf_expand_label(hk, b"quic key", 16),
            iv: hkdf_expand_label(hk, b"quic iv", 12),
            hp: hkdf_expand_label(hk, b"quic hp", 16),
        }
    }
}

impl CryptoDx for TestDx {
    fn expansion(&self) -> usize {
        16
    }

    fn encrypt(&mut self, pn: u64, aad: &[u8], plain: &[u8]) -> Result<Vec<u8>, Error> {
        let mut nonce = [0u8; 12];
        nonce.copy_from_slice(&self.iv);
        let pnb = pn.to_be_bytes();
        for i in 0..8 {
            nonce[4 + i] ^= pnb[i];
        }
        let cipher = Aes128Gcm::new_from_slice(&self.key).map_err(|_| Error::InternalError)?;
        cipher
            .encrypt(GenericArray::from_slice(&nonce), Payload { msg: plain, aad })
            .map_err(|_| Error::CryptoError)
    }

    fn compute_mask(&self, sample: &[u8]) -> Result<Vec<u8>, Error> {
        let cipher = Aes128::new_from_slice(&self.hp).map_err(|_| Error::InternalError)?;
        let mut block = GenericArray::clone_from_slice(sample);
        cipher.encrypt_block(&mut block);
        Ok(block[..5].to_vec())
    }
}

/// Server write protection for the Initial packet space, derived from the
/// client's destination connection ID.  In most of these tests, anything will
/// do; this is that "anything".
fn default_protector() -> TestDx {
    let initial = Hkdf::<Sha256>::new(Some(INITIAL_SALT), CLIENT_CID);
    let server_secret = hkdf_expand_label(&initial, b"server in", 32);
    let hk = Hkdf::<Sha256>::from_prk(&server_secret).expect("prk");
    TestDx::from_secret(&hk)
}

/// The process-wide fixed-key Retry protector.
fn retry_protector() -> TestDx {
    let hk = Hkdf::<Sha256>::from_prk(RETRY_SECRET).expect("prk");
    TestDx::from_secret(&hk)
}

fn cid(bytes: &[u8]) -> ConnectionId {
    ConnectionId::new(bytes.to_vec())
}

#[test]
fn sample_server_initial() {
    const SAMPLE_PAYLOAD: &[u8] = &[
        0x0d, 0x00, 0x00, 0x00, 0x00, 0x18, 0x41, 0x0a, 0x02, 0x00, 0x00, 0x56, 0x03, 0x03, 0xee,
        0xfc, 0xe7, 0xf7, 0xb3, 0x7b, 0xa1, 0xd1, 0x63, 0x2e, 0x96, 0x67, 0x78, 0x25, 0xdd, 0xf7,
        0x39, 0x88, 0xcf, 0xc7, 0x98, 0x25, 0xdf, 0x56, 0x6d, 0xc5, 0x43, 0x0b, 0x9a, 0x04, 0x5a,
        0x12, 0x00, 0x13, 0x01, 0x00, 0x00, 0x2e, 0x00, 0x33, 0x00, 0x24, 0x00, 0x1d, 0x00, 0x20,
        0x9d, 0x3c, 0x94, 0x0d, 0x89, 0x69, 0x0b, 0x84, 0xd0, 0x8a, 0x60, 0x99, 0x3c, 0x14, 0x4e,
        0xca, 0x68, 0x4d, 0x10, 0x81, 0x28, 0x7c, 0x83, 0x4d, 0x53, 0x11, 0xbc, 0xf3, 0x2b, 0xb9,
        0xda, 0x1a, 0x00, 0x2b, 0x00, 0x02, 0x03, 0x04,
    ];
    const EXPECTED: &[u8] = &[
        0xc9, 0xff, 0x00, 0x00, 0x18, 0x00, 0x08, 0xf0, 0x67, 0xa5, 0x50, 0x2a, 0x42, 0x62, 0xb5,
        0x00, 0x40, 0x74, 0x16, 0x8b, 0xf2, 0x2b, 0x70, 0x02, 0x59, 0x6f, 0x99, 0xae, 0x67, 0xab,
        0xf6, 0x5a, 0x58, 0x52, 0xf5, 0x4f, 0x58, 0xc3, 0x7c, 0x80, 0x86, 0x82, 0xe2, 0xe4, 0x04,
        0x92, 0xd8, 0xa3, 0x89, 0x9f, 0xb0, 0x4f, 0xc0, 0xaf, 0xe9, 0xaa, 0xbc, 0x87, 0x67, 0xb1,
        0x8a, 0x0a, 0xa4, 0x93, 0x53, 0x74, 0x26, 0x37, 0x3b, 0x48, 0xd5, 0x02, 0x21, 0x4d, 0xd8,
        0x56, 0xd6, 0x3b, 0x78, 0xce, 0xe3, 0x7b, 0xc6, 0x64, 0xb3, 0xfe, 0x86, 0xd4, 0x87, 0xac,
        0x7a, 0x77, 0xc5, 0x30, 0x38, 0xa3, 0xcd, 0x32, 0xf0, 0xb5, 0x00, 0x4d, 0x9f, 0x57, 0x54,
        0xc4, 0xf7, 0xf2, 0xd1, 0xf3, 0x5c, 0xf3, 0xf7, 0x11, 0x63, 0x51, 0xc9, 0x2b, 0x58, 0x4d,
        0x2d, 0xdd, 0x6c, 0x26, 0xc7, 0x8a, 0x84, 0x07, 0xf0, 0x9e, 0xfd, 0xa4, 0xa3, 0x08,
    ];

    let mut prot = default_protector();

    // The expected bytes use pn=1; burn an encryption so the flow matches a
    // provider that refuses to skip packet numbers.
    let burn = prot.encrypt(0, &[], &[]).expect("burn OK");
    assert_eq!(burn.len(), prot.expansion());

    let mut builder = PacketBuilder::long(
        Encoder::new(),
        PacketType::Initial,
        &cid(&[]),
        &cid(SERVER_CID),
    );
    builder.initial_token(&[]);
    builder.pn(1, 2);
    builder.encode(SAMPLE_PAYLOAD);
    let packet = builder.build(&mut prot).expect("build");
    assert_eq!(&packet.to_vec()[..], EXPECTED);
}

#[test]
fn build_short() {
    let mut builder = PacketBuilder::short(Encoder::new(), true, &cid(SERVER_CID));
    builder.pn(0, 1);
    builder.encode(&[0; 3]); // Enough payload for sampling.
    let packet = builder.build(&mut default_protector()).expect("build");
    assert_eq!(packet.len(), 29);
}

#[test]
fn build_two() {
    let mut prot = default_protector();
    let mut builder = PacketBuilder::long(
        Encoder::new(),
        PacketType::Handshake,
        &cid(SERVER_CID),
        &cid(CLIENT_CID),
    );
    builder.pn(0, 1);
    builder.encode(&[0; 3]);
    let encoder = builder.build(&mut prot).expect("build");
    assert_eq!(encoder.len(), 45);
    let first = encoder.to_vec();

    let mut builder = PacketBuilder::short(encoder, false, &cid(SERVER_CID));
    builder.pn(1, 3);
    builder.encode(&[0]); // Minimal size (packet number is big enough).
    let encoder = builder.build(&mut prot).expect("build");
    assert_eq!(
        &first[..],
        &encoder.to_vec()[..first.len()],
        "the first packet should be a prefix"
    );
    assert_eq!(encoder.len(), 45 + 29);
}

#[test]
fn build_abort() {
    let mut builder = PacketBuilder::long(
        Encoder::new(),
        PacketType::Initial,
        &cid(&[]),
        &cid(SERVER_CID),
    );
    builder.initial_token(&[]);
    builder.pn(1, 2);
    let encoder = builder.abort();
    assert!(encoder.is_empty());
}

#[test]
fn build_retry() {
    const EXPECTED: &[u8] = &[
        0xff, 0xff, 0x00, 0x00, 0x18, 0x00, 0x08, 0xf0, 0x67, 0xa5, 0x50, 0x2a, 0x42, 0x62, 0xb5,
        0x74, 0x6f, 0x6b, 0x65, 0x6e, 0x43, 0xe0, 0x42, 0xc5, 0xcc, 0x3c, 0x5d, 0xa7, 0x31, 0xee,
        0xc9, 0xa9, 0xbc, 0x3c, 0xab, 0x32,
    ];

    let retry = PacketBuilder::retry(
        &mut retry_protector(),
        &cid(&[]),
        &cid(SERVER_CID),
        b"token",
        &cid(CLIENT_CID),
    )
    .unwrap();

    // The builder adds randomness, which makes expectations hard.
    // So only do a full check when that randomness matches up.
    if retry[0] == EXPECTED[0] {
        assert_eq!(&retry, &EXPECTED);
    } else {
        // Otherwise, just check that the header is OK.
        assert_eq!(retry[0] & 0xf0, 0xf0);
        let header_range = 1..retry.len() - 16;
        assert_eq!(&retry[header_range.clone()], &EXPECTED[header_range]);
    }
}

#[test]
fn build_retry_multiple() {
    // Run the build_retry test a few times.
    // This increases the chance that the full comparison happens.
    for _ in 0..32 {
        build_retry();
    }
}

/// A deterministic provider: ciphertext is the plaintext followed by `exp`
/// filler bytes, and the mask is fixed.
struct FixedDx {
    exp: usize,
    fail_encrypt: bool,
    fail_mask: bool,
}

impl CryptoDx for FixedDx {
    fn expansion(&self) -> usize {
        self.exp
    }

    fn encrypt(&mut self, _pn: u64, _aad: &[u8], plain: &[u8]) -> Result<Vec<u8>, Error> {
        if self.fail_encrypt {
            return Err(Error::CryptoError);
        }
        let mut ct = plain.to_vec();
        for _ in 0..self.exp {
            ct.push(0xa5);
        }
        Ok(ct)
    }

    fn compute_mask(&self, _sample: &[u8]) -> Result<Vec<u8>, Error> {
        if self.fail_mask {
            return Err(Error::InternalError);
        }
        Ok(vec![0x3c, 0x01, 0x02, 0x03, 0x04])
    }
}

#[test]
fn build_minimal_long() {
    // A long header with a one-byte packet number and no payload still
    // builds, provided the tag is long enough to sample a mask from.
    let mut prot = FixedDx { exp: 19, fail_encrypt: false, fail_mask: false };
    let mut builder = PacketBuilder::long(
        Encoder::new(),
        PacketType::Handshake,
        &cid(SERVER_CID),
        &cid(CLIENT_CID),
    );
    builder.pn(0, 1);
    let header_len = builder.encoder.len();
    let packet = builder.build(&mut prot).expect("build");
    assert_eq!(packet.len(), header_len + 19);
}

#[test]
fn build_deterministic() {
    let make = || {
        let mut prot = FixedDx { exp: 16, fail_encrypt: false, fail_mask: false };
        let mut builder = PacketBuilder::short(Encoder::new(), false, &cid(SERVER_CID));
        builder.pn(7, 2);
        builder.encode(&[1, 2, 3, 4]);
        builder.build(&mut prot).expect("build").into_vec()
    };
    assert_eq!(make(), make());
}

#[test]
fn coalesced_prefix() {
    let mut prot = FixedDx { exp: 16, fail_encrypt: false, fail_mask: false };
    let mut builder = PacketBuilder::short(Encoder::new(), false, &cid(SERVER_CID));
    builder.pn(0, 2);
    builder.encode(&[9; 4]);
    let alone = builder.build(&mut prot).expect("build").to_vec();

    let mut prot = FixedDx { exp: 16, fail_encrypt: false, fail_mask: false };
    let mut builder = PacketBuilder::short(Encoder::new(), false, &cid(SERVER_CID));
    builder.pn(0, 2);
    builder.encode(&[9; 4]);
    let encoder = builder.build(&mut prot).expect("build");
    let mut builder = PacketBuilder::short(encoder, true, &cid(CLIENT_CID));
    builder.pn(1, 2);
    builder.encode(&[8; 4]);
    let both = builder.build(&mut prot).expect("build").to_vec();

    assert_eq!(&alone[..], &both[..alone.len()]);
}

#[test]
fn abort_in_shared_buffer() {
    let mut prot = FixedDx { exp: 16, fail_encrypt: false, fail_mask: false };
    let mut builder = PacketBuilder::short(Encoder::new(), false, &cid(SERVER_CID));
    builder.pn(0, 2);
    builder.encode(&[9; 4]);
    let encoder = builder.build(&mut prot).expect("build");
    let before = encoder.to_vec();

    let mut builder = PacketBuilder::long(
        Encoder::new(),
        PacketType::ZeroRtt,
        &cid(SERVER_CID),
        &cid(CLIENT_CID),
    );
    builder.pn(2, 1);
    builder.encode(&[1, 2, 3]);
    drop(builder);

    let mut builder = PacketBuilder::long(encoder, PacketType::ZeroRtt, &cid(SERVER_CID), &cid(CLIENT_CID));
    builder.pn(2, 1);
    builder.encode(&[1, 2, 3]);
    let encoder = builder.abort();
    assert_eq!(encoder.to_vec(), before);
}

#[test]
fn is_empty_transitions() {
    let mut builder = PacketBuilder::short(Encoder::new(), false, &cid(SERVER_CID));
    builder.pn(0, 1);
    assert!(builder.is_empty());
    builder.encode(&[0]);
    assert!(!builder.is_empty());
}

#[test]
fn build_encrypt_failure() {
    let mut prot = FixedDx { exp: 16, fail_encrypt: true, fail_mask: false };
    let mut builder = PacketBuilder::short(Encoder::new(), false, &cid(SERVER_CID));
    builder.pn(0, 1);
    builder.encode(&[0; 3]);
    assert!(matches!(builder.build(&mut prot), Err(Error::CryptoError)));
}

#[test]
fn build_mask_failure() {
    let mut prot = FixedDx { exp: 16, fail_encrypt: false, fail_mask: true };
    let mut builder = PacketBuilder::short(Encoder::new(), false, &cid(SERVER_CID));
    builder.pn(0, 1);
    builder.encode(&[0; 3]);
    assert!(matches!(builder.build(&mut prot), Err(Error::InternalError)));
}

#[test]
fn retry_failure() {
    let mut prot = FixedDx { exp: 16, fail_encrypt: true, fail_mask: false };
    let r = PacketBuilder::retry(&mut prot, &cid(&[]), &cid(SERVER_CID), b"token", &cid(CLIENT_CID));
    assert!(matches!(r, Err(Error::CryptoError)));
}

#[test]
fn retry_tag_validates() {
    let retry = PacketBuilder::retry(
        &mut retry_protector(),
        &cid(&[]),
        &cid(SERVER_CID),
        b"token",
        &cid(CLIENT_CID),
    )
    .unwrap();
    // Recompute the tag over the pseudo packet: the original destination
    // connection ID, length-prefixed, then everything before the tag.
    let split = retry.len() - 16;
    let mut pseudo: Vec<u8> = Vec::new();
    pseudo.push(CLIENT_CID.len() as u8);
    pseudo.extend_from_slice(CLIENT_CID);
    pseudo.extend_from_slice(&retry[..split]);
    let tag = retry_protector().encrypt(0, &pseudo, &[]).expect("tag");
    assert_eq!(&retry[split..], &tag[..]);
}

#[test]
fn packet_type_codes() {
    assert_eq!(PacketType::Initial.code(), 0x0);
    assert_eq!(PacketType::ZeroRtt.code(), 0x1);
    assert_eq!(PacketType::Handshake.code(), 0x2);
    assert_eq!(PacketType::Retry.code(), 0x3);
}

#[test]
fn initial_token_prefixes() {
    let mut builder = PacketBuilder::long(
        Encoder::new(),
        PacketType::Initial,
        &cid(&[]),
        &cid(SERVER_CID),
    );
    let len0 = builder.encoder.len();
    // A short token gets a one-byte prefix holding its length.
    builder.initial_token(&[7; 3]);
    assert_eq!(builder.encoder.len(), len0 + 1 + 3);
    assert_eq!(builder.encoder.byte_at(len0), 3);

    let mut builder = PacketBuilder::long(
        Encoder::new(),
        PacketType::Initial,
        &cid(&[]),
        &cid(SERVER_CID),
    );
    let len0 = builder.encoder.len();
    // A longer token gets the two-byte prefix form.
    builder.initial_token(&[7; 64]);
    assert_eq!(builder.encoder.len(), len0 + 2 + 64);
    assert_eq!(builder.encoder.byte_at(len0), 0x40);
    assert_eq!(builder.encoder.byte_at(len0 + 1), 64);

    let mut builder = PacketBuilder::long(
        Encoder::new(),
        PacketType::Initial,
        &cid(&[]),
        &cid(SERVER_CID),
    );
    let len0 = builder.encoder.len();
    // Past the two-byte range, the four-byte prefix form.
    builder.initial_token(&[7; 20000]);
    assert_eq!(builder.encoder.len(), len0 + 4 + 20000);
    assert_eq!(builder.encoder.byte_at(len0), 0x80);
    assert_eq!(builder.encoder.byte_at(len0 + 1), 0x00);
    assert_eq!(builder.encoder.byte_at(len0 + 2), 0x4e);
    assert_eq!(builder.encoder.byte_at(len0 + 3), 0x20);
}

#[test]
fn vn_length_and_fields() {
    let dcid = cid(&[1, 2, 3]);
    let scid = cid(&[4, 5, 6, 7, 8, 9, 10]);
    let vn = PacketBuilder::version_negotiation(&dcid, &scid);
    assert_eq!(vn.len(), 15 + 3 + 7);
    assert_eq!(vn[0] & 0x80, 0x80);
    assert_eq!(&vn[1..5], &[0, 0, 0, 0]);
    let n = vn.len();
    assert_eq!(&vn[n - 8..n - 4], &[0xff, 0x00, 0x00, 0x18]);
    for b in &vn[n - 4..] {
        assert_eq!(b & 0x0f, 0x0a);
    }
}

#[test]
fn build_vn() {
    const EXPECTED: &[u8] = &[
        0x80, 0x00, 0x00, 0x00, 0x00, 0x08, 0xf0, 0x67, 0xa5, 0x50, 0x2a, 0x42, 0x62, 0xb5, 0x08,
        0x83, 0x94, 0xc8, 0xf0, 0x3e, 0x51, 0x57, 0x08, 0xff, 0x00, 0x00, 0x18, 0x0a, 0x0a, 0x0a,
        0x0a,
    ];

    let mut vn = PacketBuilder::version_negotiation(&cid(SERVER_CID), &cid(CLIENT_CID));
    // Erase randomness from greasing...
    assert_eq!(vn.len(), EXPECTED.len());
    vn[0] &= 0x80;
    for v in vn.iter_mut().skip(EXPECTED.len() - 4) {
        *v &= 0x0f;
    }
    assert_eq!(&vn, &EXPECTED);
}
