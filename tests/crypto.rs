use tari_ledger_core::derivation::{account_path, derive_nonce, get_raw_key, signing_path_segments};
use tari_ledger_core::errors::Error;
use tari_ledger_core::hashing::{Blake256, DomainSeparatedConsensusHasher};
use tari_ledger_core::keys::{RistrettoPublicKey, RistrettoSecretKey};
use tari_ledger_core::pedersen::commit;
use tari_ledger_core::schnorr::{challenge_for_message, SchnorrSignature};

use blake2::Blake2b;
use curve25519_dalek::constants::RISTRETTO_BASEPOINT_COMPRESSED;
use curve25519_dalek::scalar::Scalar;
use digest::consts::U32;
use digest::Digest;

fn scalar(v: u64) -> RistrettoSecretKey {
    let mut b = [0u8; 32];
    b[..8].copy_from_slice(&v.to_le_bytes());
    RistrettoSecretKey::from_bytes(&b).unwrap()
}

fn group_order_bytes() -> [u8; 32] {
    [
        0xed, 0xd3, 0xf5, 0x5c, 0x1a, 0x63, 0x12, 0x58, 0xd6, 0x9c, 0xf7, 0xa2, 0xde, 0xf9, 0xde, 0x14,
        0, 0, 0, 0, 0, 0, 0, 0, 0, 0, 0, 0, 0, 0, 0, 0x10,
    ]
}

#[test]
fn sign_raw_verifies() {
    let secret = scalar(123456789);
    let nonce = scalar(987654321);
    let challenge = [3u8; 32];
    let sig = SchnorrSignature::sign_raw(&secret, nonce, &challenge).unwrap();
    let pk = RistrettoPublicKey::from_secret_key(&secret);
    let e = RistrettoSecretKey::from_bytes(&challenge).unwrap();
    assert!(sig.verify(&pk, &e));
    assert!(!sig.verify(&pk, &scalar(5)));
    assert_eq!(sig.get_public_nonce().as_bytes(), RistrettoPublicKey::from_secret_key(&nonce).as_bytes());
    // s = r + e·k
    let expected = Scalar::from(987654321u64) + Scalar::from_bytes_mod_order(challenge) * Scalar::from(123456789u64);
    assert_eq!(sig.get_signature().as_bytes(), expected.as_bytes());
}

#[test]
fn sign_raw_rejects_wrong_challenge_width() {
    let secret = scalar(1);
    assert!(matches!(SchnorrSignature::sign_raw(&secret, scalar(2), &[1u8; 31]), Err(Error::InvalidChallenge)));
    assert!(matches!(SchnorrSignature::sign_raw(&secret, scalar(2), &[1u8; 33]), Err(Error::InvalidChallenge)));
}

#[test]
fn random_signatures_verify() {
    let secret = RistrettoSecretKey::random().unwrap();
    let pk = RistrettoPublicKey::from_secret_key(&secret);
    let sig = SchnorrSignature::sign_message(&secret, b"a message").unwrap();
    let e = challenge_for_message(sig.get_public_nonce(), &pk, b"a message");
    assert!(sig.verify(&pk, &e));
    let e2 = challenge_for_message(sig.get_public_nonce(), &pk, b"another message");
    assert!(!sig.verify(&pk, &e2));
}

#[test]
fn nonce_reuse_reveals_secret() {
    let secret = scalar(0x1234_5678_9abc);
    let nonce = scalar(42);
    let c1 = [1u8; 32];
    let c2 = [2u8; 32];
    let s1 = SchnorrSignature::sign_raw(&secret, nonce, &c1).unwrap();
    let s2 = SchnorrSignature::sign_raw(&secret, nonce, &c2).unwrap();
    let a = Scalar::from_bytes_mod_order(s1.get_signature().to_bytes());
    let b = Scalar::from_bytes_mod_order(s2.get_signature().to_bytes());
    let e1 = Scalar::from_bytes_mod_order(c1);
    let e2 = Scalar::from_bytes_mod_order(c2);
    let recovered = (a - b) * (e1 - e2).invert();
    assert_eq!(recovered.to_bytes(), secret.to_bytes());
    // the same through the library's own arithmetic
    let ds = s1.get_signature().sub(s2.get_signature());
    let de = RistrettoSecretKey::from_bytes(&c1).unwrap().sub(&RistrettoSecretKey::from_bytes(&c2).unwrap());
    let inv = RistrettoSecretKey::from_bytes(&Scalar::from_bytes_mod_order(de.to_bytes()).invert().to_bytes()).unwrap();
    assert_eq!(ds.mul(&inv).to_bytes(), secret.to_bytes());
}

#[test]
fn scalar_subtraction_and_small_values() {
    assert_eq!(scalar(9).sub(&scalar(4)).to_bytes(), scalar(5).to_bytes());
    let minus_one = scalar(0).sub(&scalar(1));
    let mut expected = group_order_bytes();
    expected[0] -= 1;
    assert_eq!(minus_one.to_bytes(), expected);
    assert_eq!(RistrettoSecretKey::from_u64(60).to_bytes(), scalar(60).to_bytes());
    assert_eq!(RistrettoSecretKey::from_u64(u64::MAX).to_bytes()[..8], u64::MAX.to_le_bytes());
}

#[test]
fn signature_sum_is_component_wise() {
    let k = scalar(10);
    let s1 = SchnorrSignature::sign_raw(&k, scalar(1), &[1u8; 32]).unwrap();
    let s2 = SchnorrSignature::sign_raw(&k, scalar(2), &[2u8; 32]).unwrap();
    let sum = s1.add(&s2);
    assert_eq!(sum.get_public_nonce().as_bytes(), RistrettoPublicKey::from_secret_key(&scalar(3)).as_bytes());
    assert_eq!(sum.get_signature().as_bytes(), s1.get_signature().add(s2.get_signature()).as_bytes());
}

#[test]
fn scalar_arithmetic_is_modulo_the_group_order() {
    assert_eq!(scalar(2).add(&scalar(3)).to_bytes(), scalar(5).to_bytes());
    assert_eq!(scalar(6).mul(&scalar(7)).to_bytes(), scalar(42).to_bytes());
    let l = group_order_bytes();
    assert_eq!(RistrettoSecretKey::from_bytes(&l).unwrap().to_bytes(), [0u8; 32]);
    let mut l_plus_one = l;
    l_plus_one[0] += 1;
    assert_eq!(RistrettoSecretKey::from_bytes(&l_plus_one).unwrap().to_bytes(), scalar(1).to_bytes());
    assert!(matches!(RistrettoSecretKey::from_bytes(&[0u8; 31]), Err(Error::IncorrectByteLength)));
    assert_eq!(RistrettoSecretKey::key_length(), 32);
}

#[test]
fn public_key_arithmetic() {
    let one = RistrettoPublicKey::from_secret_key(&scalar(1));
    assert_eq!(one.as_bytes(), RISTRETTO_BASEPOINT_COMPRESSED.as_bytes());
    let two = RistrettoPublicKey::from_secret_key(&scalar(2));
    let three = RistrettoPublicKey::from_secret_key(&scalar(3));
    assert_eq!(two.add(&three).to_bytes(), RistrettoPublicKey::from_secret_key(&scalar(5)).to_bytes());
    assert_eq!(three.mul(&scalar(4)).to_bytes(), RistrettoPublicKey::from_secret_key(&scalar(12)).to_bytes());
    assert_ne!(two.to_bytes(), three.to_bytes());
}

#[test]
fn public_key_decoding() {
    let p = RistrettoPublicKey::from_secret_key(&scalar(77));
    let q = RistrettoPublicKey::from_bytes(p.as_bytes()).unwrap();
    assert_eq!(p.to_bytes(), q.to_bytes());
    assert!(matches!(RistrettoPublicKey::from_bytes(&[0xffu8; 32]), Err(Error::ConversionError)));
    assert!(matches!(RistrettoPublicKey::from_bytes(&[0u8; 33]), Err(Error::IncorrectByteLength)));
    assert!(RistrettoPublicKey::new_from_compressed([0xffu8; 32]).is_none());
    assert!(RistrettoPublicKey::new_from_compressed(p.to_bytes()).is_some());
}

#[test]
fn commitments_bind_blinding_and_value() {
    let c1 = commit(&scalar(11), 60);
    let c2 = commit(&scalar(12), 60);
    let c3 = commit(&scalar(11), 61);
    assert_ne!(c1.as_bytes(), c2.as_bytes());
    assert_ne!(c1.as_bytes(), c3.as_bytes());
    assert_eq!(c1.as_bytes(), commit(&scalar(11), 60).as_bytes());
    // zero value: the commitment is the blinding key's public key
    assert_eq!(commit(&scalar(11), 0).as_bytes(), RistrettoPublicKey::from_secret_key(&scalar(11)).as_bytes());
    assert_eq!(c1.as_public_key().to_bytes().to_vec(), c1.as_bytes().to_vec());
}

#[test]
fn derivation_is_deterministic_and_path_sensitive() {
    let root = [5u8; 32];
    let path = signing_path_segments();
    assert_eq!(get_raw_key(&root, &path), get_raw_key(&root, &path));
    let other = account_path(0, 1).unwrap();
    assert_ne!(get_raw_key(&root, &path), get_raw_key(&root, &other));
    assert_ne!(get_raw_key(&root, &path), get_raw_key(&[6u8; 32], &path));
    let ordered = account_path(0, 7).unwrap();
    let swapped = [ordered[0], ordered[1], ordered[2], ordered[4], ordered[3]];
    assert_ne!(swapped, ordered);
    assert_ne!(get_raw_key(&root, &swapped), get_raw_key(&root, &ordered));
    let reordered = account_path(1, 0).unwrap();
    let flipped = account_path(0, 1).unwrap();
    assert_ne!(get_raw_key(&root, &reordered), get_raw_key(&root, &flipped));
    assert_eq!(account_path(1 << 31, 0), Err(Error::ConversionError));
    assert_eq!(account_path(0, 1 << 31), Ok([44 + 0x8000_0000, 535348 + 0x8000_0000, 0x8000_0000, 0, 0x8000_0000]));
    assert_eq!(account_path(0, u32::MAX as u64), Ok([44 + 0x8000_0000, 535348 + 0x8000_0000, 0x8000_0000, 0, u32::MAX]));
    assert_eq!(account_path(0, 1 << 32), Err(Error::ConversionError));
}

#[test]
fn raw_key_is_hash_of_tagged_input() {
    let root = [5u8; 32];
    let path = signing_path_segments();
    let tag = b"com.tari.base_layer.core.transactions.v0.key_derivation";
    let mut input = (tag.len() as u64).to_le_bytes().to_vec();
    input.extend_from_slice(tag);
    input.extend_from_slice(&root);
    for seg in path {
        input.extend_from_slice(&seg.to_le_bytes());
    }
    let expected: [u8; 32] = Blake2b::<U32>::digest(&input).into();
    assert_eq!(get_raw_key(&root, &path), expected);
}

#[test]
fn nonces_depend_on_the_message() {
    let k = scalar(99);
    let a = derive_nonce(&k, b"one");
    let b = derive_nonce(&k, b"two");
    assert_ne!(a.to_bytes(), b.to_bytes());
    assert_eq!(a.to_bytes(), derive_nonce(&k, b"one").to_bytes());
}

#[test]
fn domain_separation_changes_the_digest() {
    let x = [1u8, 2, 3];
    let a = DomainSeparatedConsensusHasher::new("purpose_a").chain(&x).finalize();
    let b = DomainSeparatedConsensusHasher::new("purpose_b").chain(&x).finalize();
    assert_ne!(a, b);
    let tag = b"com.tari.base_layer.core.transactions.v0.purpose_a";
    let mut input = (tag.len() as u64).to_le_bytes().to_vec();
    input.extend_from_slice(tag);
    input.extend_from_slice(&3u32.to_le_bytes());
    input.extend_from_slice(&x);
    let expected: [u8; 32] = Blake2b::<U32>::digest(&input).into();
    assert_eq!(a, expected);
    let mut h = DomainSeparatedConsensusHasher::new("");
    h.update_consensus_encode(&x);
    let tag = b"com.tari.base_layer.core.transactions.v0";
    let mut input = (tag.len() as u64).to_le_bytes().to_vec();
    input.extend_from_slice(tag);
    input.extend_from_slice(&3u32.to_le_bytes());
    input.extend_from_slice(&x);
    let expected: [u8; 32] = Blake2b::<U32>::digest(&input).into();
    assert_eq!(h.finalize(), expected);
    let fixed = DomainSeparatedConsensusHasher::new("purpose_a").chain_fixed(&x).finalize();
    assert_ne!(fixed, a);
}

#[test]
fn blake256_matches_known_digest() {
    let empty = Blake256::new().finalize();
    assert_eq!(
        empty,
        [
            0x0e, 0x57, 0x51, 0xc0, 0x26, 0xe5, 0x43, 0xb2, 0xe8, 0xab, 0x2e, 0xb0, 0x60, 0x99, 0xda,
            0xa1, 0xd1, 0xe5, 0xdf, 0x47, 0x77, 0x8f, 0x77, 0x87, 0xfa, 0xab, 0x45, 0xcd, 0xf1, 0x2f,
            0xe3, 0xa8,
        ]
    );
    let mut h = Blake256::new();
    h.update(b"ab");
    h.update(b"c");
    let abc: [u8; 32] = Blake2b::<U32>::digest(b"abc").into();
    assert_eq!(h.finalize(), abc);
    let mut h = Blake256::new().chain(b"xyz");
    h.reset();
    assert_eq!(h.finalize(), empty);
}

#[test]
fn wide_reduction_and_decoding_round_trip() {
    let mut wide = [0u8; 64];
    wide[..32].copy_from_slice(&group_order_bytes());
    assert_eq!(RistrettoSecretKey::from_bytes_mod_order_wide(&wide).to_bytes(), [0u8; 32]);
    wide[0] += 3;
    assert_eq!(RistrettoSecretKey::from_bytes_mod_order_wide(&wide).to_bytes(), scalar(3).to_bytes());
    let p = RistrettoPublicKey::from_secret_key(&scalar(31337));
    let q = RistrettoPublicKey::from_bytes(p.as_bytes()).unwrap();
    assert_eq!(q.mul(&scalar(2)).to_bytes(), p.add(&p).to_bytes());
}
