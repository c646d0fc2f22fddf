//! Pedersen commitments `k·B + v·H` to a value `v` with blinding scalar `k`,
//! `H` a second generator with no known logarithm to the base `B`.

use vstd::prelude::*;
use tari_crypto::commitment::HomomorphicCommitmentFactory;
use tari_crypto::ristretto::pedersen::extended_commitment_factory::ExtendedPedersenCommitmentFactory;
use tari_crypto::tari_utilities::ByteArray;
use crate::encoding::le_value;
use crate::keys::{encodes_one_element, encodes_uniquely, group_order, is_point_encoding, ristretto_encoding, RistrettoPublicKey, RistrettoSecretKey};

verus! {

/// The compressed encoding of the Pedersen generator `H`.
pub open spec fn pedersen_h_encoding() -> Seq<u8> {
    seq![
        206u8, 56u8, 152u8, 65u8, 192u8, 200u8, 105u8, 138u8, 185u8, 91u8, 112u8, 36u8, 42u8, 238u8,
        166u8, 72u8, 64u8, 177u8, 234u8, 197u8, 246u8, 68u8, 183u8, 208u8, 8u8, 172u8, 5u8, 135u8,
        207u8, 71u8, 29u8, 112u8,
    ]
}

/// The `h < ℓ` with `H = h·B`. Nobody knows its value; the contracts only
/// need that it exists.
pub open spec fn pedersen_h_log() -> nat {
    choose|h: nat| h < group_order() && ristretto_encoding(h) == pedersen_h_encoding()
}

/// The logarithm of the commitment `k·B + v·H`.
pub open spec fn commitment_log(k: nat, v: nat) -> nat {
    (k + v * pedersen_h_log()) % group_order()
}

/// Relies on tari_crypto's `ristretto_pedersen_h_compressed`: the encoding of
/// the generator `H` that its commitment factory uses, a group element.
#[verifier::external_body]
fn pedersen_generator_h() -> (r: [u8; 32])
    ensures
        r@ == pedersen_h_encoding(),
        is_point_encoding(r@),
{
    tari_crypto::ristretto::pedersen::ristretto_pedersen_h_compressed().to_bytes()
}

/// Relies on tari_crypto's `ExtendedPedersenCommitmentFactory::commit_value`
/// (default factory), which computes `value·H + k·B` and encodes it.
#[verifier::external_body]
fn commit_value_encoding(k: &[u8; 32], value: u64) -> (r: [u8; 32])
    requires
        le_value(k@) < group_order(),
    ensures
        forall|h: nat|
            #![trigger ristretto_encoding(h)]
            h < group_order() && ristretto_encoding(h) == pedersen_h_encoding() ==> r@
                == ristretto_encoding((le_value(k@) + (value as nat) * h) % group_order()),
        encodes_one_element(r@),
{
    let key = tari_crypto::ristretto::RistrettoSecretKey::from_canonical_bytes(k.as_slice()).unwrap();
    let c = ExtendedPedersenCommitmentFactory::default().commit_value(&key, value);
    let mut out = [0u8; 32];
    out.copy_from_slice(c.as_bytes());
    out
}

/// A Pedersen commitment: a group element.
#[derive(Clone, Copy)]
pub struct PedersenCommitment {
    point: RistrettoPublicKey,
}

impl View for PedersenCommitment {
    type V = nat;

    /// The commitment's logarithm to the base `B`.
    closed spec fn view(&self) -> nat {
        self.point@
    }
}

impl PedersenCommitment {
    /// The compressed encoding of the commitment.
    pub fn as_bytes(&self) -> (r: &[u8])
        ensures
            r@ == ristretto_encoding(self@),
            encodes_uniquely(r@, self@),
            r@.len() == 32,
    {
        self.point.as_bytes()
    }

    /// The commitment as a group element.
    pub fn as_public_key(&self) -> (r: &RistrettoPublicKey)
        ensures
            r@ == self@,
    {
        &self.point
    }
}

/// The commitment `blinding·B + value·H`.
pub fn commit(blinding: &RistrettoSecretKey, value: u64) -> (r: PedersenCommitment)
    ensures
        r@ == commitment_log(blinding@, value as nat),
{
    // The generator's encoding is what tells us that `H = h·B` for some `h`.
    let _h = pedersen_generator_h();
    let k = blinding.to_bytes();
    proof {
        use_type_invariant(blinding);
    }
    let encoding = commit_value_encoding(&k, value);
    let ghost h = pedersen_h_log();
    proof {
        assert(ristretto_encoding(h) == pedersen_h_encoding());
    }
    let point = RistrettoPublicKey::from_encoding(encoding, Ghost(commitment_log(blinding@, value as nat)));
    PedersenCommitment { point }
}

/// For one value, different blinding scalars give different commitments.
pub proof fn lemma_commitment_binds_blinding(k1: nat, k2: nat, v: nat)
    requires
        k1 < group_order(),
        k2 < group_order(),
        k1 != k2,
    ensures
        commitment_log(k1, v) != commitment_log(k2, v),
{
    let l = group_order() as int;
    let c = (v * pedersen_h_log()) as int;
    vstd::arithmetic::div_mod::lemma_mod_equivalence(k1 + c, k2 + c, l);
    if k1 > k2 {
        vstd::arithmetic::div_mod::lemma_small_mod((k1 - k2) as nat, group_order());
        assert((k1 + c) - (k2 + c) == k1 - k2);
    } else {
        vstd::arithmetic::div_mod::lemma_mod_equivalence(k2 + c, k1 + c, l);
        vstd::arithmetic::div_mod::lemma_small_mod((k2 - k1) as nat, group_order());
        assert((k2 + c) - (k1 + c) == k2 - k1);
    }
}

} // verus!

verus! {

/// For one value, commitments under different blinding scalars have
/// different encodings: `b1` and `b2` are the encodings of the two
/// commitments, as `PedersenCommitment::as_bytes` gives them.
pub proof fn lemma_commitment_encodings_differ(k1: nat, k2: nat, v: nat, b1: Seq<u8>, b2: Seq<u8>)
    requires
        k1 < group_order(),
        k2 < group_order(),
        k1 != k2,
        encodes_uniquely(b1, commitment_log(k1, v)),
        encodes_uniquely(b2, commitment_log(k2, v)),
    ensures
        b1 != b2,
{
    lemma_commitment_binds_blinding(k1, k2, v);
    if b1 == b2 {
        crate::keys::lemma_encoding_determines_element(b1, commitment_log(k1, v), commitment_log(k2, v));
    }
}

} // verus!
