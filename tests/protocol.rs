use tari_ledger_core::client::{build_command, parse_sign_reply, parse_version_reply, verify_sign_reply};
use tari_ledger_core::derivation::{account_path, signing_path_segments};
use tari_ledger_core::dispatcher::{response_bytes, Session};
use tari_ledger_core::errors::Error;
use tari_ledger_core::instruction::Instruction;
use tari_ledger_core::keys::{RistrettoPublicKey, RistrettoSecretKey};
use tari_ledger_core::pedersen::commit;

use curve25519_dalek::ristretto::{CompressedRistretto, RistrettoPoint};
use curve25519_dalek::scalar::Scalar;

const ROOT_A: [u8; 32] = [7u8; 32];
const ROOT_B: [u8; 32] = [9u8; 32];

const PEDERSEN_H: [u8; 32] = [
    206, 56, 152, 65, 192, 200, 105, 138, 185, 91, 112, 36, 42, 238, 166, 72, 64, 177, 234, 197, 246,
    68, 183, 208, 8, 172, 5, 135, 207, 71, 29, 112,
];

fn command(ins: u8, data: &[u8]) -> Vec<u8> {
    let mut c = vec![0x80, ins, 0, 0, data.len() as u8];
    c.extend_from_slice(data);
    c
}

fn expected_version_reply() -> Vec<u8> {
    let mut v = vec![1u8, 16];
    v.extend_from_slice(b"tari_ledger_demo");
    v.push(5);
    v.extend_from_slice(b"0.0.1");
    v.push(0);
    v
}

#[test]
fn get_version_reply_is_fixed() {
    let mut session = Session::new(ROOT_A);
    let first = session.handle_apdu(&command(0x01, &[])).unwrap();
    let second = session.handle_apdu(&command(0x01, &[0])).unwrap();
    let mut other = Session::new(ROOT_B);
    let third = other.handle_apdu(&command(0x01, &[])).unwrap();
    assert_eq!(first, expected_version_reply());
    assert_eq!(first, second);
    assert_eq!(first, third);
    let (name, version) = parse_version_reply(&first).unwrap();
    assert_eq!(name, b"tari_ledger_demo".to_vec());
    assert_eq!(version, b"0.0.1".to_vec());
}

#[test]
fn short_sign_payload_is_rejected() {
    let mut session = Session::new(ROOT_A);
    assert_eq!(session.handle_apdu(&command(0x02, &[])), Err(Error::NothingReceived));
    assert_eq!(session.handle_apdu(&command(0x02, &[1u8; 31])), Err(Error::IncorrectByteLength));
    assert_eq!(session.handle_apdu(&[0x80, 0x02]), Err(Error::NothingReceived));
    assert!(session.is_running());
}

#[test]
fn bad_instruction_keeps_session_running() {
    let mut session = Session::new(ROOT_A);
    let r = session.handle_apdu(&command(0x33, &[0]));
    assert_eq!(r, Err(Error::BadInstruction(0x33)));
    assert_eq!(Error::BadInstruction(0x33).status_word(), 0x6d00);
    assert!(session.is_running());
    assert_eq!(session.handle_apdu(&command(0x01, &[])).unwrap(), expected_version_reply());
}

#[test]
fn exit_ends_session() {
    let mut session = Session::new(ROOT_A);
    assert_eq!(session.handle_apdu(&command(0x06, &[0])), Ok(vec![]));
    assert!(!session.is_running());
    assert_eq!(session.handle_apdu(&command(0x01, &[])), Err(Error::SessionEnded));
    assert_eq!(Error::SessionEnded.status_word(), 0x6985);
    assert!(!session.is_running());
}

#[test]
fn sign_reply_verifies_against_its_challenge() {
    let mut session = Session::new(ROOT_A);
    let challenge = [0x5au8; 32];
    let data = session.handle_apdu(&command(0x02, &challenge)).unwrap();
    assert_eq!(data.len(), 97);
    assert_eq!(data[0], 1);
    assert_eq!(verify_sign_reply(&challenge, &data), Ok(true));
    let mut other = challenge;
    other[0] ^= 1;
    assert_eq!(verify_sign_reply(&other, &data), Ok(false));
    let mut tampered = data.clone();
    tampered[40] ^= 1;
    assert_eq!(verify_sign_reply(&challenge, &tampered), Ok(false));
    assert_eq!(verify_sign_reply(&challenge, &data[..96]), Err(Error::IncorrectByteLength));
    // the public key is the device key's
    let k = tari_ledger_core::derivation::derive(&ROOT_A, &signing_path_segments());
    let pk = RistrettoPublicKey::from_secret_key(&k);
    assert_eq!(&data[1..33], pk.as_bytes());
    // signing is deterministic, and another challenge gets another nonce
    let again = session.handle_apdu(&command(0x02, &challenge)).unwrap();
    assert_eq!(data, again);
    let third = session.handle_apdu(&command(0x02, &other)).unwrap();
    assert_ne!(&data[65..97], &third[65..97]);
}

#[test]
fn sign_reply_with_invalid_point_is_refused() {
    let mut data = vec![1u8];
    data.extend_from_slice(&[0xffu8; 32]);
    data.extend_from_slice(&[0u8; 32]);
    data.extend_from_slice(&[0u8; 32]);
    assert!(matches!(parse_sign_reply(&data), Err(Error::ConversionError)));
}

#[test]
fn commitments_with_two_roots_differ() {
    let mut a = Session::new(ROOT_A);
    let mut b = Session::new(ROOT_B);
    let value: u64 = 60;
    let ca = a.handle_apdu(&command(0x03, &value.to_le_bytes())).unwrap();
    let cb = b.handle_apdu(&command(0x03, &value.to_le_bytes())).unwrap();
    assert_eq!(ca.len(), 33);
    assert_eq!(cb.len(), 33);
    assert_ne!(ca, cb);
    let h = CompressedRistretto(PEDERSEN_H).decompress().unwrap();
    for (root, reply) in [(ROOT_A, &ca), (ROOT_B, &cb)] {
        let k = tari_ledger_core::derivation::derive(&root, &signing_path_segments());
        let ks = Scalar::from_bytes_mod_order(k.to_bytes());
        let expected = RistrettoPoint::mul_base(&ks) + Scalar::from(60u64) * h;
        assert_eq!(&reply[1..33], &expected.compress().to_bytes());
    }
}

#[test]
fn commitment_payload_errors() {
    let mut session = Session::new(ROOT_A);
    assert_eq!(session.handle_apdu(&command(0x03, &[])), Err(Error::NothingReceived));
    assert_eq!(session.handle_apdu(&command(0x03, &[1, 2, 3])), Err(Error::IncorrectByteLength));
}

#[test]
fn get_public_key_follows_the_account_path() {
    let mut session = Session::new(ROOT_A);
    let mut data = 0u64.to_le_bytes().to_vec();
    data.extend_from_slice(&0u64.to_le_bytes());
    let reply = session.handle_apdu(&command(0x04, &data)).unwrap();
    let k = tari_ledger_core::derivation::derive(&ROOT_A, &signing_path_segments());
    assert_eq!(&reply[1..], RistrettoPublicKey::from_secret_key(&k).as_bytes());

    let mut data = 3u64.to_le_bytes().to_vec();
    data.extend_from_slice(&4u64.to_le_bytes());
    let reply = session.handle_apdu(&command(0x04, &data)).unwrap();
    let path = account_path(3, 4).unwrap();
    assert_eq!(path, [44 + 0x8000_0000, 535348 + 0x8000_0000, 3 + 0x8000_0000, 0, 4]);
    let k = tari_ledger_core::derivation::derive(&ROOT_A, &path);
    assert_eq!(&reply[1..], RistrettoPublicKey::from_secret_key(&k).as_bytes());

    let mut data = (1u64 << 31).to_le_bytes().to_vec();
    data.extend_from_slice(&0u64.to_le_bytes());
    assert_eq!(session.handle_apdu(&command(0x04, &data)), Err(Error::ConversionError));

    let high_index = (1u64 << 31) + 5;
    let mut data = 2u64.to_le_bytes().to_vec();
    data.extend_from_slice(&high_index.to_le_bytes());
    let reply = session.handle_apdu(&command(0x04, &data)).unwrap();
    let k = tari_ledger_core::derivation::derive(&ROOT_A, &account_path(2, high_index).unwrap());
    assert_eq!(&reply[1..], RistrettoPublicKey::from_secret_key(&k).as_bytes());

    let mut data = 2u64.to_le_bytes().to_vec();
    data.extend_from_slice(&(1u64 << 32).to_le_bytes());
    assert_eq!(session.handle_apdu(&command(0x04, &data)), Err(Error::ConversionError));
    assert_eq!(session.handle_apdu(&command(0x04, &[1u8; 15])), Err(Error::IncorrectByteLength));
    assert_eq!(session.handle_apdu(&command(0x04, &[])), Err(Error::NothingReceived));
}

#[test]
fn get_public_nonce_is_a_point() {
    let mut session = Session::new(ROOT_A);
    let a = session.handle_apdu(&command(0x05, &[])).unwrap();
    let b = session.handle_apdu(&command(0x05, &[0])).unwrap();
    assert_eq!(a.len(), 33);
    assert_eq!(a[0], 1);
    assert_eq!(a, b);
    assert!(RistrettoPublicKey::from_bytes(&a[1..]).is_ok());
}

#[test]
fn built_commands_are_handled() {
    let c = build_command(Instruction::GetVersion, &[]);
    assert_eq!(c, vec![0x80, 0x01, 0, 0, 0]);
    let c = build_command(Instruction::Sign, &[9u8; 32]);
    assert_eq!(c.len(), 37);
    assert_eq!(c[1], 0x02);
    assert_eq!(c[4], 32);
    let mut session = Session::new(ROOT_B);
    let reply = session.handle_apdu(&c).unwrap();
    assert_eq!(verify_sign_reply(&[9u8; 32], &reply), Ok(true));
}

#[test]
fn secret_keys_of_two_roots_differ() {
    let a = tari_ledger_core::derivation::derive(&ROOT_A, &signing_path_segments());
    let b = tari_ledger_core::derivation::derive(&ROOT_B, &signing_path_segments());
    assert_ne!(a.to_bytes(), b.to_bytes());
    let ca = commit(&a, 60);
    let cb = commit(&b, 60);
    assert_ne!(ca.as_bytes(), cb.as_bytes());
    let _ = RistrettoSecretKey::key_length();
}

#[test]
fn responses_end_with_status_word() {
    let mut session = Session::new(ROOT_A);
    let ok = session.handle_apdu(&command(0x05, &[]));
    let framed = response_bytes(&ok);
    assert_eq!(framed.len(), 35);
    assert_eq!(&framed[33..], &[0x90, 0x00]);
    let err = session.handle_apdu(&command(0x33, &[]));
    assert_eq!(response_bytes(&err), vec![0x6d, 0x00]);
    let err = session.handle_apdu(&command(0x02, &[]));
    assert_eq!(response_bytes(&err), vec![0x69, 0x82]);
}
