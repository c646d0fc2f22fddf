//! The command dispatcher: decodes a command, runs the instruction it names
//! and encodes the reply.
//!
//! A command is a 5-byte header (class, instruction, two parameters, payload
//! length) followed by the payload. Each command is handled on its own; the
//! only state kept between commands is the root secret and whether the
//! session has ended.

use vstd::prelude::*;
use vstd::slice::slice_subrange;
use crate::array_string::{ArrayString, lemma_padded_full, lemma_trimmed_len_bound};
use crate::derivation::{
    account_path, account_path_of, derive_nonce, derived_key, derived_nonce, signing_path,
    signing_path_segments, HARDENED,
};
use crate::encoding::{le_bytes, le_decode, le_value};
use crate::errors::{status_word_of, Error, STATUS_OK};
use crate::hashing::append_bytes;
use crate::instruction::{instruction_of, Instruction};
use crate::keys::{encodes_uniquely, ristretto_encoding, RistrettoPublicKey};
use crate::pedersen::{commit, commitment_log};
use crate::schnorr::{message_challenge, schnorr_response, SchnorrSignature};

verus! {

/// The number of header bytes before a command's payload.
pub const HEADER_LEN: usize = 5;

/// The class byte of the protocol's commands.
pub const CLASS: u8 = 0x80;

/// The format version that leads every reply with data.
pub const REPLY_VERSION: u8 = 1;

/// The application's name.
pub open spec fn app_name() -> Seq<u8> {
    seq![116u8, 97u8, 114u8, 105u8, 95u8, 108u8, 101u8, 100u8, 103u8, 101u8, 114u8, 95u8, 100u8, 101u8, 109u8, 111u8]
}

/// The application's version.
pub open spec fn app_version() -> Seq<u8> {
    seq![48u8, 46u8, 48u8, 46u8, 49u8]
}

/// The reply to `GetVersion`: format, name and version each after its
/// length, and an empty flags byte.
#[verifier::opaque]
pub open spec fn version_reply() -> Seq<u8> {
    seq![1u8, app_name().len() as u8] + app_name() + seq![app_version().len() as u8] + app_version()
        + seq![0u8]
}

/// The device's own secret key.
pub open spec fn device_key(root: Seq<u8>) -> nat {
    derived_key(root, signing_path())
}

/// The reply to `Sign` on `challenge`: the public key, the response and the
/// public nonce of a signature by the device's own key.
#[verifier::opaque]
pub open spec fn sign_reply(root: Seq<u8>, challenge: Seq<u8>) -> Seq<u8> {
    let k = device_key(root);
    let n = derived_nonce(k, challenge);
    let s = schnorr_response(k, n, message_challenge(n, k, challenge));
    seq![1u8] + ristretto_encoding(k) + le_bytes(s, 32) + ristretto_encoding(n)
}

/// The reply to `Commitment` on `value`, blinded by the device's own key.
#[verifier::opaque]
pub open spec fn commitment_reply(root: Seq<u8>, value: nat) -> Seq<u8> {
    seq![1u8] + ristretto_encoding(commitment_log(device_key(root), value))
}

/// The reply to `GetPublicKey`.
#[verifier::opaque]
pub open spec fn public_key_reply(root: Seq<u8>, account: nat, index: nat) -> Seq<u8> {
    seq![1u8] + ristretto_encoding(derived_key(root, account_path_of(account, index)))
}

/// The reply to `GetPublicNonce`: the public nonce of the device's own key
/// for an empty message.
#[verifier::opaque]
pub open spec fn public_nonce_reply(root: Seq<u8>) -> Seq<u8> {
    seq![1u8] + ristretto_encoding(derived_nonce(device_key(root), Seq::empty()))
}

/// The payload of a command.
pub open spec fn payload_of(command: Seq<u8>) -> Seq<u8> {
    command.subrange(HEADER_LEN as int, command.len() as int)
}

/// The error for a payload of `len` bytes where `need` are required, if any.
pub open spec fn payload_error(len: nat, need: nat) -> Option<Error> {
    if len == 0 {
        Some(Error::NothingReceived)
    } else if len < need {
        Some(Error::IncorrectByteLength)
    } else {
        None
    }
}

/// The reply data, or the error, that a session with `root` gives `command`.
pub open spec fn reply(root: Seq<u8>, command: Seq<u8>) -> Result<Seq<u8>, Error> {
    if command.len() < HEADER_LEN {
        Err(Error::NothingReceived)
    } else {
        let p = payload_of(command);
        match instruction_of(command[1]) {
            Instruction::GetVersion => Ok(version_reply()),
            Instruction::Sign => match payload_error(p.len(), 32) {
                Some(e) => Err(e),
                None => Ok(sign_reply(root, p.subrange(0, 32))),
            },
            Instruction::Commitment => match payload_error(p.len(), 8) {
                Some(e) => Err(e),
                None => Ok(commitment_reply(root, le_value(p.subrange(0, 8)))),
            },
            Instruction::GetPublicKey => match payload_error(p.len(), 16) {
                Some(e) => Err(e),
                None => {
                    let account = le_value(p.subrange(0, 8));
                    let index = le_value(p.subrange(8, 16));
                    if account < HARDENED && index < 0x1_0000_0000 {
                        Ok(public_key_reply(root, account, index))
                    } else {
                        Err(Error::ConversionError)
                    }
                },
            },
            Instruction::GetPublicNonce => Ok(public_nonce_reply(root)),
            Instruction::Exit => Ok(Seq::empty()),
            Instruction::BadInstruction(b) => Err(Error::BadInstruction(b)),
        }
    }
}

/// Whether the session still runs after `command`: only `Exit` ends it, and
/// an ended session stays ended.
pub open spec fn running_after(running: bool, command: Seq<u8>) -> bool {
    running && !(command.len() >= HEADER_LEN && instruction_of(command[1]) == Instruction::Exit)
}

/// Whether an executable reply is the one specified.
pub open spec fn reply_matches(r: Result<Vec<u8>, Error>, expected: Result<Seq<u8>, Error>) -> bool {
    match r {
        Ok(v) => expected == Ok::<Seq<u8>, Error>(v@),
        Err(e) => expected == Err::<Seq<u8>, Error>(e),
    }
}

/// A signing session of the device: its root secret and whether it runs.
pub struct Session {
    root_secret: [u8; 32],
    running: bool,
}

impl View for Session {
    type V = (Seq<u8>, bool);

    /// The root secret and whether the session runs.
    closed spec fn view(&self) -> (Seq<u8>, bool) {
        (self.root_secret@, self.running)
    }
}

/// Reads the payload of `command` that `need` bytes are required of.
fn checked_payload(command: &[u8], need: usize) -> (r: Result<&[u8], Error>)
    requires
        command@.len() >= HEADER_LEN,
    ensures
        payload_error(payload_of(command@).len(), need as nat) matches Some(e) ==> r == Err::<
            &[u8],
            Error,
        >(e),
        payload_error(payload_of(command@).len(), need as nat) is None ==> (r matches Ok(p) && p@
            == payload_of(command@)),
{
    let p = slice_subrange(command, HEADER_LEN, command.len());
    if p.len() == 0 {
        Err(Error::NothingReceived)
    } else if p.len() < need {
        Err(Error::IncorrectByteLength)
    } else {
        Ok(p)
    }
}

/// The bytes of the application's name.
pub fn app_name_bytes() -> (r: Vec<u8>)
    ensures
        r@ == app_name(),
{
    let r = vec![116u8, 97u8, 114u8, 105u8, 95u8, 108u8, 101u8, 100u8, 103u8, 101u8, 114u8, 95u8, 100u8, 101u8, 109u8, 111u8];
    proof {
        assert(r@ =~= app_name());
    }
    r
}

/// The bytes of the application's version.
pub fn app_version_bytes() -> (r: Vec<u8>)
    ensures
        r@ == app_version(),
{
    let r = vec![48u8, 46u8, 48u8, 46u8, 49u8];
    proof {
        assert(r@ =~= app_version());
    }
    r
}

impl Session {
    /// A running session over the root secret `root_secret`.
    pub fn new(root_secret: [u8; 32]) -> (r: Self)
        ensures
            r@ == (root_secret@, true),
    {
        Session { root_secret, running: true }
    }

    /// Whether the session still accepts commands.
    pub fn is_running(&self) -> (r: bool)
        ensures
            r == self@.1,
    {
        self.running
    }

    /// Handles one command and returns the reply data, or the error that the
    /// host is to be told. `Exit` ends the session; nothing else changes it.
    pub fn handle_apdu(&mut self, command: &[u8]) -> (r: Result<Vec<u8>, Error>)
        ensures
            old(self)@.1 ==> reply_matches(r, reply(old(self)@.0, command@)),
            !old(self)@.1 ==> r == Err::<Vec<u8>, Error>(Error::SessionEnded),
            final(self)@ == (old(self)@.0, running_after(old(self)@.1, command@)),
            old(self)@.1 && command@.len() >= HEADER_LEN && command@[1] == 0x03 ==> (r matches Ok(d)
                ==> encodes_uniquely(
                d@.subrange(1, 33),
                commitment_log(
                    device_key(old(self)@.0),
                    le_value(payload_of(command@).subrange(0, 8)),
                ),
            )),
    {
        if !self.running {
            return Err(Error::SessionEnded);
        }
        if command.len() < HEADER_LEN {
            return Err(Error::NothingReceived);
        }
        let instruction = Instruction::from_u8(command[1]);
        match instruction {
            Instruction::GetVersion => Ok(self.version()),
            Instruction::Sign => {
                let payload = match checked_payload(command, 32) {
                    Ok(p) => p,
                    Err(e) => return Err(e),
                };
                Ok(self.sign(slice_subrange(payload, 0, 32)))
            },
            Instruction::Commitment => {
                let payload = match checked_payload(command, 8) {
                    Ok(p) => p,
                    Err(e) => return Err(e),
                };
                let value = le_decode(slice_subrange(payload, 0, 8));
                Ok(self.commitment(value))
            },
            Instruction::GetPublicKey => {
                let payload = match checked_payload(command, 16) {
                    Ok(p) => p,
                    Err(e) => return Err(e),
                };
                let account = le_decode(slice_subrange(payload, 0, 8));
                let index = le_decode(slice_subrange(payload, 8, 16));
                let path = match account_path(account, index) {
                    Ok(p) => p,
                    Err(e) => return Err(e),
                };
                let k = crate::derivation::derive(&self.root_secret, &path);
                let pk = RistrettoPublicKey::from_secret_key(&k);
                let mut out: Vec<u8> = vec![REPLY_VERSION];
                append_bytes(&mut out, pk.as_bytes());
                proof {
                    reveal(public_key_reply);
                    assert(out@ =~= public_key_reply(self@.0, account as nat, index as nat));
                }
                Ok(out)
            },
            Instruction::GetPublicNonce => {
                let k = crate::derivation::derive(&self.root_secret, &signing_path_segments());
                let empty: Vec<u8> = Vec::new();
                let n = derive_nonce(&k, empty.as_slice());
                proof {
                    assert(empty@ =~= Seq::<u8>::empty());
                }
                let public_nonce = RistrettoPublicKey::from_secret_key(&n);
                let mut out: Vec<u8> = vec![REPLY_VERSION];
                append_bytes(&mut out, public_nonce.as_bytes());
                proof {
                    reveal(public_nonce_reply);
                    assert(out@ =~= public_nonce_reply(self@.0));
                }
                Ok(out)
            },
            Instruction::Exit => {
                self.running = false;
                Ok(Vec::new())
            },
            Instruction::BadInstruction(b) => Err(Error::BadInstruction(b)),
        }
    }

    fn version(&self) -> (r: Vec<u8>)
        ensures
            r@ == version_reply(),
    {
        let name = app_name_bytes();
        let version = app_version_bytes();
        let mut out: Vec<u8> = vec![REPLY_VERSION, name.len() as u8];
        append_bytes(&mut out, name.as_slice());
        out.push(version.len() as u8);
        append_bytes(&mut out, version.as_slice());
        out.push(0u8);
        proof {
            reveal(version_reply);
            assert(out@ =~= version_reply());
        }
        out
    }

    fn sign(&self, payload: &[u8]) -> (r: Vec<u8>)
        requires
            payload@.len() == 32,
        ensures
            r@ == sign_reply(self@.0, payload@),
    {
        let k = crate::derivation::derive(&self.root_secret, &signing_path_segments());
        proof {
            lemma_trimmed_len_bound(payload@);
            lemma_padded_full(payload@);
        }
        let challenge = ArrayString::<32>::from_bytes(payload);
        let challenge_bytes = challenge.bytes();
        let n = derive_nonce(&k, challenge_bytes.as_slice());
        let public_key = RistrettoPublicKey::from_secret_key(&k);
        let mut out: Vec<u8> = vec![REPLY_VERSION];
        append_bytes(&mut out, public_key.as_bytes());
        match SchnorrSignature::sign_with_nonce_and_message(&k, n, challenge_bytes.as_slice()) {
            Ok(sig) => {
                append_bytes(&mut out, sig.get_signature().as_bytes());
                append_bytes(&mut out, sig.get_public_nonce().as_bytes());
            },
            Err(_) => {},
        }
        proof {
            reveal(sign_reply);
            assert(out@ =~= sign_reply(self@.0, payload@));
        }
        out
    }

    fn commitment(&self, value: u64) -> (r: Vec<u8>)
        ensures
            r@ == commitment_reply(self@.0, value as nat),
            encodes_uniquely(r@.subrange(1, 33), commitment_log(device_key(self@.0), value as nat)),
    {
        let k = crate::derivation::derive(&self.root_secret, &signing_path_segments());
        let c = commit(&k, value);
        let mut out: Vec<u8> = vec![REPLY_VERSION];
        let encoding = c.as_bytes();
        append_bytes(&mut out, encoding);
        proof {
            reveal(commitment_reply);
            assert(out@ =~= commitment_reply(self@.0, value as nat));
            assert(out@.subrange(1, 33) =~= encoding@);
        }
        out
    }
}

} // verus!

verus! {

/// A `Sign` command whose payload is shorter than a challenge is refused: with
/// `NothingReceived` when it has no payload, else `IncorrectByteLength`.
pub proof fn lemma_short_sign_rejected(root: Seq<u8>, command: Seq<u8>)
    requires
        command.len() >= HEADER_LEN,
        command[1] == 0x02,
        command.len() < HEADER_LEN + 32,
    ensures
        command.len() == HEADER_LEN ==> reply(root, command) == Err::<Seq<u8>, Error>(
            Error::NothingReceived,
        ),
        command.len() > HEADER_LEN ==> reply(root, command) == Err::<Seq<u8>, Error>(
            Error::IncorrectByteLength,
        ),
{
}

/// A command with an unknown opcode is refused with `BadInstruction` carrying
/// the opcode, and the session goes on.
pub proof fn lemma_unknown_opcode_rejected(root: Seq<u8>, command: Seq<u8>, running: bool)
    requires
        command.len() >= HEADER_LEN,
        !(0x01 <= command[1] <= 0x06),
    ensures
        reply(root, command) == Err::<Seq<u8>, Error>(Error::BadInstruction(command[1])),
        running_after(running, command) == running,
{
}

/// Every `GetVersion` command gets the same reply, whatever the session's
/// root secret and whatever else the command holds.
pub proof fn lemma_version_reply_fixed(
    root_a: Seq<u8>,
    command_a: Seq<u8>,
    root_b: Seq<u8>,
    command_b: Seq<u8>,
)
    requires
        command_a.len() >= HEADER_LEN,
        command_b.len() >= HEADER_LEN,
        command_a[1] == 0x01,
        command_b[1] == 0x01,
    ensures
        reply(root_a, command_a) == Ok::<Seq<u8>, Error>(version_reply()),
        reply(root_a, command_a) == reply(root_b, command_b),
{
}

} // verus!

verus! {

/// The bytes sent back for a handled command: the reply data and the success
/// status word, or the error's status word alone, each status word high byte
/// first.
pub open spec fn response_of(r: Result<Seq<u8>, Error>) -> Seq<u8> {
    match r {
        Ok(data) => data + seq![(STATUS_OK / 256) as u8, (STATUS_OK % 256) as u8],
        Err(e) => seq![(status_word_of(e) / 256) as u8, (status_word_of(e) % 256) as u8],
    }
}

/// Frames the outcome of a command as the bytes that go back to the host; an
/// error never carries data.
pub fn response_bytes(r: &Result<Vec<u8>, Error>) -> (out: Vec<u8>)
    ensures
        *r matches Ok(d) ==> out@ == response_of(Ok::<Seq<u8>, Error>(d@)),
        *r matches Err(e) ==> out@ == response_of(Err::<Seq<u8>, Error>(e)) && out@.len() == 2,
{
    match r {
        Ok(data) => {
            let mut out: Vec<u8> = Vec::new();
            append_bytes(&mut out, data.as_slice());
            out.push((STATUS_OK / 256) as u8);
            out.push((STATUS_OK % 256) as u8);
            proof {
                assert(out@ =~= response_of(Ok::<Seq<u8>, Error>(data@)));
            }
            out
        },
        Err(e) => {
            let sw = e.status_word();
            let out: Vec<u8> = vec![(sw / 256) as u8, (sw % 256) as u8];
            proof {
                assert(out@ =~= response_of(Err::<Seq<u8>, Error>(*e)));
            }
            out
        },
    }
}

} // verus!

verus! {

/// Two sessions whose device keys differ give different `Commitment` replies
/// for the same value: `da` and `db` are the replies, whose encodings
/// `handle_apdu` states to be unique.
pub proof fn lemma_commitment_replies_differ(
    root_a: Seq<u8>,
    root_b: Seq<u8>,
    value: nat,
    da: Seq<u8>,
    db: Seq<u8>,
)
    requires
        device_key(root_a) != device_key(root_b),
        encodes_uniquely(da.subrange(1, 33), commitment_log(device_key(root_a), value)),
        encodes_uniquely(db.subrange(1, 33), commitment_log(device_key(root_b), value)),
    ensures
        da != db,
{
    crate::pedersen::lemma_commitment_encodings_differ(
        device_key(root_a),
        device_key(root_b),
        value,
        da.subrange(1, 33),
        db.subrange(1, 33),
    );
}

} // verus!
