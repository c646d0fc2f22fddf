//! Schnorr signatures over the Ristretto group.
//!
//! A signature by secret `k` with nonce `r` on challenge `e` is the pair
//! `(r·B, r + e·k mod ℓ)`; it verifies against the public key `P = k·B` when
//! `s·B = R + e·P`.

use vstd::prelude::*;
use vstd::string::StringSliceAdditionalSpecFns;
use crate::encoding::{le_value, bytes_equal};
use crate::errors::Error;
use crate::hashing::{
    blake2b_256, domain_tag, length_prefixed, transaction_domain, DomainSeparatedConsensusHasher,
};
use crate::keys::{group_order, ristretto_encoding, RistrettoPublicKey, RistrettoSecretKey};

verus! {

/// The label under which message challenges are hashed.
pub const SCRIPT_CHALLENGE: &'static str = "script_challenge";

/// The response `r + e·k mod ℓ` of a signature by `secret` with `nonce` on
/// the challenge `e`.
pub open spec fn schnorr_response(secret: nat, nonce: nat, e: nat) -> nat {
    (nonce + e * secret) % group_order()
}

/// Whether `s·B` and `R + e·P` are the same element, for `P = public_key·B`
/// and `R = public_nonce·B`.
pub open spec fn schnorr_equation_holds(public_key: nat, e: nat, public_nonce: nat, s: nat) -> bool {
    ristretto_encoding(s) == ristretto_encoding((public_nonce + e * public_key) % group_order())
}

/// What is hashed to bind a message to a public nonce and a public key.
pub open spec fn message_challenge_preimage(
    public_nonce: nat,
    public_key: nat,
    message: Seq<u8>,
) -> Seq<u8> {
    domain_tag(transaction_domain(), SCRIPT_CHALLENGE.spec_bytes()) + length_prefixed(
        ristretto_encoding(public_nonce),
    ) + length_prefixed(ristretto_encoding(public_key)) + length_prefixed(message)
}

/// The challenge scalar that binds `message` to `public_nonce·B` and
/// `public_key·B`.
pub open spec fn message_challenge(public_nonce: nat, public_key: nat, message: Seq<u8>) -> nat {
    le_value(blake2b_256(message_challenge_preimage(public_nonce, public_key, message)))
        % group_order()
}

/// The domain-separated challenge scalar for `message` under the given public
/// nonce and public key.
pub fn challenge_for_message(
    public_nonce: &RistrettoPublicKey,
    public_key: &RistrettoPublicKey,
    message: &[u8],
) -> (r: RistrettoSecretKey)
    requires
        message@.len() < 0x1_0000_0000,
    ensures
        r@ == message_challenge(public_nonce@, public_key@, message@),
{
    let digest = DomainSeparatedConsensusHasher::new(SCRIPT_CHALLENGE).chain(
        public_nonce.as_bytes(),
    ).chain(public_key.as_bytes()).chain(message).finalize();
    proof {
        assert(digest@ =~= blake2b_256(
            message_challenge_preimage(public_nonce@, public_key@, message@),
        ));
    }
    RistrettoSecretKey::from_bytes_mod_order(&digest)
}

/// A Schnorr signature: a public nonce and a response scalar.
#[derive(Clone, Copy)]
pub struct SchnorrSignature {
    public_nonce: RistrettoPublicKey,
    signature: RistrettoSecretKey,
}

impl View for SchnorrSignature {
    type V = (nat, nat);

    /// The public nonce's logarithm and the response.
    closed spec fn view(&self) -> (nat, nat) {
        (self.public_nonce@, self.signature@)
    }
}

impl SchnorrSignature {
    /// The signature with the given public nonce and response.
    pub fn new(public_nonce: RistrettoPublicKey, signature: RistrettoSecretKey) -> (r: Self)
        ensures
            r@ == (public_nonce@, signature@),
    {
        SchnorrSignature { public_nonce, signature }
    }

    /// Signs the challenge scalar read from `challenge` (32 little-endian
    /// bytes, reduced modulo ℓ) with `secret` and `nonce`. The challenge is
    /// not bound to the public key or the nonce: the caller must have done so.
    pub fn sign_raw(secret: &RistrettoSecretKey, nonce: RistrettoSecretKey, challenge: &[u8]) -> (r:
        Result<Self, Error>)
        ensures
            challenge@.len() == 32 <==> r is Ok,
            r matches Ok(sig) ==> sig@ == (
                nonce@,
                schnorr_response(secret@, nonce@, le_value(challenge@) % group_order()),
            ),
            r matches Err(e) ==> e == Error::InvalidChallenge,
    {
        let e = match RistrettoSecretKey::from_bytes(challenge) {
            Ok(e) => e,
            Err(_) => return Err(Error::InvalidChallenge),
        };
        let public_nonce = RistrettoPublicKey::from_secret_key(&nonce);
        let ek = e.mul(secret);
        let s = ek.add(&nonce);
        proof {
            use_type_invariant(&nonce);
            lemma_sum_mod(e@ * secret@, nonce@);
        }
        Ok(Self::new(public_nonce, s))
    }

    /// Signs `message` with `secret` and `nonce`, binding the public nonce and
    /// the public key into the challenge by domain-separated hashing. The
    /// nonce must never sign two different challenges.
    pub fn sign_with_nonce_and_message(
        secret: &RistrettoSecretKey,
        nonce: RistrettoSecretKey,
        message: &[u8],
    ) -> (r: Result<Self, Error>)
        requires
            message@.len() < 0x1_0000_0000,
        ensures
            r matches Ok(sig) && sig@ == (
                nonce@,
                schnorr_response(secret@, nonce@, message_challenge(nonce@, secret@, message@)),
            ),
    {
        let public_nonce = RistrettoPublicKey::from_secret_key(&nonce);
        let public_key = RistrettoPublicKey::from_secret_key(secret);
        let e = challenge_for_message(&public_nonce, &public_key, message);
        let r = Self::sign_raw(secret, nonce, e.as_bytes());
        proof {
            use_type_invariant(&e);
            vstd::arithmetic::div_mod::lemma_small_mod(e@, group_order());
        }
        r
    }

    /// Signs `message` with `secret` and a nonce drawn from the operating
    /// system's generator; nothing when the generator fails.
    pub fn sign_message(secret: &RistrettoSecretKey, message: &[u8]) -> (r: Option<Self>)
        requires
            message@.len() < 0x1_0000_0000,
        ensures
            r matches Some(sig) ==> sig@.0 < group_order() && sig@.1 == schnorr_response(
                secret@,
                sig@.0,
                message_challenge(sig@.0, secret@, message@),
            ),
    {
        let nonce = match RistrettoSecretKey::random() {
            Some(n) => n,
            None => return None,
        };
        match Self::sign_with_nonce_and_message(secret, nonce, message) {
            Ok(sig) => Some(sig),
            Err(_) => None,
        }
    }

    /// Whether `s·B = R + e·P` for this signature `(R, s)`, the public key `P`
    /// and the challenge `e`.
    pub fn verify(&self, public_key: &RistrettoPublicKey, challenge: &RistrettoSecretKey) -> (r:
        bool)
        ensures
            r == schnorr_equation_holds(public_key@, challenge@, self@.0, self@.1),
    {
        let lhs = RistrettoPublicKey::from_secret_key(&self.signature).to_bytes();
        let ep = public_key.mul(challenge);
        let rhs = self.public_nonce.add(&ep).to_bytes();
        proof {
            use_type_invariant(&self.public_nonce);
            lemma_sum_mod(challenge@ * public_key@, self.public_nonce@);
            vstd::arithmetic::div_mod::lemma_small_mod(self.public_nonce@, group_order());
        }
        bytes_equal(&lhs, &rhs)
    }

    /// The response scalar.
    pub fn get_signature(&self) -> (r: &RistrettoSecretKey)
        ensures
            r@ == self@.1,
    {
        &self.signature
    }

    /// The public nonce.
    pub fn get_public_nonce(&self) -> (r: &RistrettoPublicKey)
        ensures
            r@ == self@.0,
    {
        &self.public_nonce
    }

    /// The component-wise sum of two signatures.
    pub fn add(&self, other: &Self) -> (r: Self)
        ensures
            r@ == ((self@.0 + other@.0) % group_order(), (self@.1 + other@.1) % group_order()),
    {
        let r_sum = self.public_nonce.add(&other.public_nonce);
        let s_sum = self.signature.add(&other.signature);
        Self::new(r_sum, s_sum)
    }
}

/// `(a mod ℓ + b) mod ℓ = (a + b) mod ℓ` for `b < ℓ`.
proof fn lemma_sum_mod(a: nat, b: nat)
    requires
        b < group_order(),
    ensures
        ((a % group_order()) + b) % group_order() == (b + a) % group_order(),
        (b + a % group_order()) % group_order() == (b + a) % group_order(),
{
    let l = group_order() as int;
    vstd::arithmetic::div_mod::lemma_small_mod(b, group_order());
    vstd::arithmetic::div_mod::lemma_add_mod_noop(a as int, b as int, l);
    vstd::arithmetic::div_mod::lemma_add_mod_noop(b as int, a as int, l);
}

/// A signature made with secret `k` and nonce `r` on challenge `e` satisfies
/// the verification equation under the public key `k·B` and the same
/// challenge.
pub proof fn lemma_signature_verifies(secret: nat, nonce: nat, e: nat)
    ensures
        schnorr_equation_holds(secret, e, nonce, schnorr_response(secret, nonce, e)),
{
}

/// Two signatures by the same secret with the same nonce on challenges `e1`,
/// `e2` give the secret away: for any inverse `inv` of `e1 - e2` modulo ℓ,
/// the secret is `(s1 - s2)·inv mod ℓ`.
pub proof fn lemma_nonce_reuse_reveals_secret(secret: nat, nonce: nat, e1: nat, e2: nat, inv: int)
    requires
        secret < group_order(),
        ((e1 - e2) * inv) % (group_order() as int) == 1,
    ensures
        ((schnorr_response(secret, nonce, e1) - schnorr_response(secret, nonce, e2)) * inv) % (
        group_order() as int) == secret,
{
    let l = group_order() as int;
    let s1 = schnorr_response(secret, nonce, e1) as int;
    let s2 = schnorr_response(secret, nonce, e2) as int;
    let a1: int = (nonce + e1 * secret) as int;
    let a2: int = (nonce + e2 * secret) as int;
    let q1 = a1 / l;
    let q2 = a2 / l;
    let d = (e1 - e2) * inv;
    let t = d / l;
    vstd::arithmetic::div_mod::lemma_fundamental_div_mod(a1, l);
    vstd::arithmetic::div_mod::lemma_fundamental_div_mod(a2, l);
    vstd::arithmetic::div_mod::lemma_fundamental_div_mod(d, l);
    assert(s1 == a1 - l * q1);
    assert(s2 == a2 - l * q2);
    assert(d == l * t + 1);
    let m = t * secret - (q1 - q2) * inv;
    assert((s1 - s2) * inv == l * m + secret) by (nonlinear_arith)
        requires
            s1 == a1 - l * q1,
            s2 == a2 - l * q2,
            a1 == nonce + e1 * secret,
            a2 == nonce + e2 * secret,
            d == (e1 - e2) * inv,
            d == l * t + 1,
            m == t * secret - (q1 - q2) * inv,
    ;
    vstd::arithmetic::div_mod::lemma_mod_multiples_vanish(m, secret as int, l);
    vstd::arithmetic::div_mod::lemma_small_mod(secret, group_order());
}

} // verus!
