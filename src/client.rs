//! The host's side of the protocol: building commands and checking replies.

use vstd::prelude::*;
use vstd::slice::slice_subrange;
use crate::dispatcher::{CLASS, HEADER_LEN};
use crate::encoding::le_value;
use crate::errors::Error;
use crate::hashing::append_bytes;
use crate::instruction::{opcode_of, Instruction};
use crate::keys::{group_order, point_log, is_point_encoding, RistrettoPublicKey, RistrettoSecretKey};
use crate::schnorr::{challenge_for_message, message_challenge, schnorr_equation_holds, SchnorrSignature};

verus! {

/// The command for `instruction` with payload `data`.
pub open spec fn command_bytes(instruction: Instruction, data: Seq<u8>) -> Seq<u8> {
    seq![CLASS, opcode_of(instruction), 0u8, 0u8, data.len() as u8] + data
}

/// Builds the command for `instruction` with payload `data`, at most 255
/// bytes.
pub fn build_command(instruction: Instruction, data: &[u8]) -> (r: Vec<u8>)
    requires
        data@.len() <= 255,
    ensures
        r@ == command_bytes(instruction, data@),
        r@.len() == HEADER_LEN + data@.len(),
{
    let mut out: Vec<u8> = vec![CLASS, instruction.as_u8(), 0u8, 0u8, data.len() as u8];
    append_bytes(&mut out, data);
    proof {
        assert(out@ =~= command_bytes(instruction, data@));
    }
    out
}

/// The name and the version in a `GetVersion` reply, if the reply is long
/// enough to hold them.
pub open spec fn version_fields(data: Seq<u8>) -> Option<(Seq<u8>, Seq<u8>)> {
    if data.len() < 2 {
        None
    } else {
        let name_len = data[1] as int;
        if data.len() < name_len + 3 {
            None
        } else {
            let version_len = data[name_len + 2] as int;
            if data.len() < name_len + 3 + version_len {
                None
            } else {
                Some(
                    (
                        data.subrange(2, name_len + 2),
                        data.subrange(name_len + 3, name_len + 3 + version_len),
                    ),
                )
            }
        }
    }
}

/// Reads the name and the version out of a `GetVersion` reply.
pub fn parse_version_reply(data: &[u8]) -> (r: Option<(Vec<u8>, Vec<u8>)>)
    ensures
        version_fields(data@) is None <==> r is None,
        r matches Some(f) ==> version_fields(data@) == Some((f.0@, f.1@)),
{
    if data.len() < 2 {
        return None;
    }
    let name_len = data[1] as usize;
    if data.len() < name_len + 3 {
        return None;
    }
    let version_len = data[name_len + 2] as usize;
    if data.len() < name_len + 3 + version_len {
        return None;
    }
    let mut name: Vec<u8> = Vec::new();
    append_bytes(&mut name, slice_subrange(data, 2, name_len + 2));
    let mut version: Vec<u8> = Vec::new();
    append_bytes(&mut version, slice_subrange(data, name_len + 3, name_len + 3 + version_len));
    proof {
        assert(name@ =~= data@.subrange(2, name_len + 2));
        assert(version@ =~= data@.subrange(name_len + 3, name_len + 3 + version_len));
    }
    Some((name, version))
}

/// The public key, the response and the public nonce in a `Sign` reply.
pub fn parse_sign_reply(data: &[u8]) -> (r: Result<
    (RistrettoPublicKey, RistrettoSecretKey, RistrettoPublicKey),
    Error,
>)
    ensures
        data@.len() < 97 ==> r == Err::<
            (RistrettoPublicKey, RistrettoSecretKey, RistrettoPublicKey),
            Error,
        >(Error::IncorrectByteLength),
        data@.len() >= 97 ==> (r is Ok <==> is_point_encoding(data@.subrange(1, 33))
            && is_point_encoding(data@.subrange(65, 97))),
        r is Err && data@.len() >= 97 ==> r == Err::<
            (RistrettoPublicKey, RistrettoSecretKey, RistrettoPublicKey),
            Error,
        >(Error::ConversionError),
        r matches Ok(f) ==> f.0@ == point_log(data@.subrange(1, 33)) && f.1@ == le_value(
            data@.subrange(33, 65),
        ) % group_order() && f.2@ == point_log(data@.subrange(65, 97)),
{
    if data.len() < 97 {
        return Err(Error::IncorrectByteLength);
    }
    let public_key = match RistrettoPublicKey::from_bytes(slice_subrange(data, 1, 33)) {
        Ok(p) => p,
        Err(e) => return Err(e),
    };
    let signature = match RistrettoSecretKey::from_bytes(slice_subrange(data, 33, 65)) {
        Ok(s) => s,
        Err(e) => return Err(e),
    };
    let public_nonce = match RistrettoPublicKey::from_bytes(slice_subrange(data, 65, 97)) {
        Ok(p) => p,
        Err(e) => return Err(e),
    };
    Ok((public_key, signature, public_nonce))
}

/// Whether the signature in a `Sign` reply verifies for `challenge` under the
/// public key in the same reply.
pub fn verify_sign_reply(challenge: &[u8], data: &[u8]) -> (r: Result<bool, Error>)
    requires
        challenge@.len() < 0x1_0000_0000,
    ensures
        data@.len() < 97 ==> r == Err::<bool, Error>(Error::IncorrectByteLength),
        data@.len() >= 97 && !(is_point_encoding(data@.subrange(1, 33)) && is_point_encoding(
            data@.subrange(65, 97),
        )) ==> r == Err::<bool, Error>(Error::ConversionError),
        r matches Ok(b) ==> ({
            let p = point_log(data@.subrange(1, 33));
            let n = point_log(data@.subrange(65, 97));
            let s = le_value(data@.subrange(33, 65)) % group_order();
            b == schnorr_equation_holds(p, message_challenge(n, p, challenge@), n, s)
        }),
        data@.len() >= 97 && is_point_encoding(data@.subrange(1, 33)) && is_point_encoding(
            data@.subrange(65, 97),
        ) ==> r is Ok,
{
    let (public_key, response, public_nonce) = match parse_sign_reply(data) {
        Ok(f) => f,
        Err(e) => return Err(e),
    };
    let e = challenge_for_message(&public_nonce, &public_key, challenge);
    let signature = SchnorrSignature::new(public_nonce, response);
    Ok(signature.verify(&public_key, &e))
}

/// An account number below `2^31` taken from a public key's encoding: its
/// first four bytes, big-endian, without the top bit.
pub open spec fn account_of_encoding(b: Seq<u8>) -> nat {
    ((b[0] as nat) * 0x100_0000 + (b[1] as nat) * 0x1_0000 + (b[2] as nat) * 0x100 + (b[3] as nat))
        % 0x8000_0000
}

/// The account number that the host uses for `public_key`.
pub fn account_from_public_key(public_key: &RistrettoPublicKey) -> (r: u64)
    ensures
        r == account_of_encoding(crate::keys::ristretto_encoding(public_key@)),
        r < 0x8000_0000,
{
    let b = public_key.as_bytes();
    let v: u64 = (b[0] as u64) * 0x100_0000 + (b[1] as u64) * 0x1_0000 + (b[2] as u64) * 0x100 + (
    b[3] as u64);
    v % 0x8000_0000
}

} // verus!
