use tari_ledger_core::array_string::ArrayString;
use tari_ledger_core::client::account_from_public_key;
use tari_ledger_core::derivation::{path_text, u64_to_string};
use tari_ledger_core::encoding::{byte_to_hex, bytes_equal, le_decode, le_encode, to_array32};
use tari_ledger_core::errors::{Error, STATUS_OK};
use tari_ledger_core::instruction::Instruction;
use tari_ledger_core::keys::{RistrettoPublicKey, RistrettoSecretKey};

#[test]
fn little_endian_round_trip() {
    assert_eq!(le_encode(0x0102_0304, 4), vec![4, 3, 2, 1]);
    assert_eq!(le_decode(&[4, 3, 2, 1]), 0x0102_0304);
    assert_eq!(le_decode(&u64::MAX.to_le_bytes()), u64::MAX);
    assert_eq!(le_encode(60, 8), 60u64.to_le_bytes().to_vec());
    assert_eq!(le_decode(&[]), 0);
    let a = to_array32(&[3u8; 32]);
    assert!(bytes_equal(&a, &[3u8; 32]));
    assert!(!bytes_equal(&a, &[4u8; 32]));
}

#[test]
fn opcodes_round_trip() {
    for b in 0u8..=255 {
        assert_eq!(Instruction::from_u8(b).as_u8(), b);
    }
    assert_eq!(Instruction::from_u8(0x01), Instruction::GetVersion);
    assert_eq!(Instruction::from_u8(0x05), Instruction::GetPublicNonce);
    assert_eq!(Instruction::from_u8(0x06), Instruction::Exit);
    assert_eq!(Instruction::from_u8(0x33), Instruction::BadInstruction(0x33));
    assert_eq!(Instruction::Commitment.as_u8(), 0x03);
}

#[test]
fn status_words_are_distinct() {
    let words = [
        Error::IncorrectByteLength.status_word(),
        Error::InvalidChallenge.status_word(),
        Error::ConversionError.status_word(),
        Error::NothingReceived.status_word(),
        Error::BadInstruction(0).status_word(),
        STATUS_OK,
    ];
    assert_eq!(words, [0x69f0, 0x9210, 0x6a88, 0x6982, 0x6d00, 0x9000]);
}

#[test]
fn array_string_trims_and_pads() {
    let s = ArrayString::<8>::from_bytes(b"abc\0\0");
    assert_eq!(s.len(), 3);
    assert_eq!(s.as_str(), "abc");
    assert_eq!(s.bytes(), b"abc\0\0\0\0\0");
    let mut t = ArrayString::<8>::new();
    assert_eq!(t.len(), 0);
    assert_eq!(t.as_str(), "");
    t.set_from_bytes(b"abcdefgh");
    assert_eq!(t.len(), 8);
    t.set_from_bytes(b"xy");
    assert_eq!(t.bytes(), b"xy\0\0\0\0\0\0");
    let full = ArrayString::<4>::from_bytes(&[1, 0, 2, 0]);
    assert_eq!(full.len(), 3);
}

#[test]
fn account_number_from_public_key() {
    let mut b = [0u8; 32];
    b[0] = 9;
    let pk = RistrettoPublicKey::from_secret_key(&RistrettoSecretKey::from_bytes(&b).unwrap());
    let enc = pk.as_bytes();
    let expected = u32::from_be_bytes([enc[0], enc[1], enc[2], enc[3]]) as u64 & 0x7fff_ffff;
    assert_eq!(account_from_public_key(&pk), expected);
}

#[test]
fn decimal_text() {
    assert_eq!(u64_to_string(0), b"0".to_vec());
    assert_eq!(u64_to_string(7), b"7".to_vec());
    assert_eq!(u64_to_string(1234567890), b"1234567890".to_vec());
    assert_eq!(u64_to_string(u64::MAX), u64::MAX.to_string().into_bytes());
    assert_eq!(path_text(3, 17), b"m/44'/535348'/3'/0/17".to_vec());
}

#[test]
fn opcode_in_hex() {
    assert_eq!(&byte_to_hex(0x33), b"33");
    assert_eq!(&byte_to_hex(0xaf), b"af");
    assert_eq!(&byte_to_hex(0x00), b"00");
    assert_eq!(&byte_to_hex(0xff), b"ff");
}
