//! Secret and public keys over the Ristretto group.
//!
//! A secret key is a scalar: an integer below the group order ℓ, held as its
//! 32 canonical little-endian bytes. A public key is a group element, which in
//! this prime-order group is `x·B` for exactly one `x < ℓ`, `B` the basepoint;
//! the key is viewed as that `x` and holds the compressed encoding of `x·B`.

use vstd::prelude::*;
use curve25519_dalek::ristretto::{CompressedRistretto, RistrettoPoint};
use curve25519_dalek::scalar::Scalar;
use rand::RngCore;
use crate::encoding::{
    le_bytes, le_encode, le_value, to_array32, lemma_le_value_is_le_bytes, lemma_le_value_push,
    lemma_pow256_values,
};
use crate::errors::Error;

verus! {

/// ℓ, the order of the Ristretto group.
pub open spec fn group_order() -> nat {
    7237005577332262213973186563042994240857116359379907606001950938285454250989nat
}

/// The compressed Ristretto encoding of `x·B`, `B` the Ristretto basepoint.
pub uninterp spec fn ristretto_encoding(x: nat) -> Seq<u8>;

/// Whether `b` is the compressed encoding of a group element.
pub open spec fn is_point_encoding(b: Seq<u8>) -> bool {
    exists|x: nat| x < group_order() && ristretto_encoding(x) == b
}

/// Whether `b` encodes at most one `x < ℓ`: Ristretto encodings are
/// canonical, one per group element.
pub open spec fn encodes_one_element(b: Seq<u8>) -> bool {
    forall|y: nat, z: nat|
        #![trigger ristretto_encoding(y), ristretto_encoding(z)]
        y < group_order() && z < group_order() && ristretto_encoding(y) == b && ristretto_encoding(z)
            == b ==> y == z
}

/// Whether `b` is the encoding of `x·B` and of no other element.
pub open spec fn encodes_uniquely(b: Seq<u8>, x: nat) -> bool {
    &&& x < group_order()
    &&& ristretto_encoding(x) == b
    &&& encodes_one_element(b)
}

/// An encoding names one element: two elements with the same unique
/// encoding are the same.
pub proof fn lemma_encoding_determines_element(b: Seq<u8>, x: nat, y: nat)
    requires
        encodes_uniquely(b, x),
        ristretto_encoding(y) == b,
        y < group_order(),
    ensures
        x == y,
{
}

/// The logarithm of the element that `b` encodes, when `b` is an encoding.
pub open spec fn point_log(b: Seq<u8>) -> nat {
    choose|x: nat| x < group_order() && ristretto_encoding(x) == b
}

/// Relies on curve25519-dalek's `Scalar::from_bytes_mod_order`: the integer
/// `b` reduced modulo ℓ, written back as canonical bytes.
#[verifier::external_body]
fn scalar_reduce(b: &[u8; 32]) -> (r: [u8; 32])
    ensures
        le_value(r@) == le_value(b@) % group_order(),
{
    Scalar::from_bytes_mod_order(*b).to_bytes()
}

/// Relies on curve25519-dalek's `Scalar::from_bytes_mod_order_wide`: the
/// 512-bit integer `b` reduced modulo ℓ.
#[verifier::external_body]
fn scalar_reduce_wide(b: &[u8; 64]) -> (r: [u8; 32])
    ensures
        le_value(r@) == le_value(b@) % group_order(),
{
    Scalar::from_bytes_mod_order_wide(b).to_bytes()
}

/// Relies on curve25519-dalek's scalar addition, which is modulo ℓ.
#[verifier::external_body]
fn scalar_add(a: &[u8; 32], b: &[u8; 32]) -> (r: [u8; 32])
    ensures
        le_value(r@) == (le_value(a@) + le_value(b@)) % group_order(),
{
    (Scalar::from_bytes_mod_order(*a) + Scalar::from_bytes_mod_order(*b)).to_bytes()
}

/// Relies on curve25519-dalek's scalar multiplication, which is modulo ℓ.
#[verifier::external_body]
fn scalar_mul(a: &[u8; 32], b: &[u8; 32]) -> (r: [u8; 32])
    ensures
        le_value(r@) == (le_value(a@) * le_value(b@)) % group_order(),
{
    (Scalar::from_bytes_mod_order(*a) * Scalar::from_bytes_mod_order(*b)).to_bytes()
}

/// Relies on curve25519-dalek's scalar subtraction, which is modulo ℓ.
#[verifier::external_body]
fn scalar_sub(a: &[u8; 32], b: &[u8; 32]) -> (r: [u8; 32])
    ensures
        le_value(r@) == (le_value(a@) - le_value(b@)) % (group_order() as int),
{
    (Scalar::from_bytes_mod_order(*a) - Scalar::from_bytes_mod_order(*b)).to_bytes()
}

/// Relies on rand's `OsRng::try_fill_bytes`: 64 bytes from the operating
/// system's generator, or nothing when the generator fails.
#[verifier::external_body]
fn random_wide_bytes() -> (r: Option<[u8; 64]>) {
    let mut b = [0u8; 64];
    match rand::rngs::OsRng.try_fill_bytes(&mut b) {
        Ok(()) => Some(b),
        Err(_) => None,
    }
}

/// Relies on curve25519-dalek's `RistrettoPoint::mul_base` and `compress`:
/// the encoding of `k·B`.
#[verifier::external_body]
fn basepoint_mul(k: &[u8; 32]) -> (r: [u8; 32])
    ensures
        r@ == ristretto_encoding(le_value(k@) % group_order()),
        encodes_one_element(r@),
{
    RistrettoPoint::mul_base(&Scalar::from_bytes_mod_order(*k)).compress().to_bytes()
}

/// Relies on curve25519-dalek's `CompressedRistretto::decompress`, which
/// accepts exactly the canonical encodings of group elements.
#[verifier::external_body]
fn point_decodes(b: &[u8; 32]) -> (r: bool)
    ensures
        r == is_point_encoding(b@),
        r ==> encodes_one_element(b@),
{
    CompressedRistretto(*b).decompress().is_some()
}

/// Relies on curve25519-dalek's point addition: `x·B + y·B = (x + y)·B`.
#[verifier::external_body]
fn point_add(a: &[u8; 32], b: &[u8; 32]) -> (r: [u8; 32])
    requires
        is_point_encoding(a@),
        is_point_encoding(b@),
    ensures
        forall|x: nat, y: nat|
            #![trigger ristretto_encoding(x), ristretto_encoding(y)]
            x < group_order() && y < group_order() && ristretto_encoding(x) == a@
                && ristretto_encoding(y) == b@ ==> r@ == ristretto_encoding((x + y) % group_order()),
        encodes_one_element(r@),
{
    let p = CompressedRistretto(*a).decompress().unwrap();
    let q = CompressedRistretto(*b).decompress().unwrap();
    (p + q).compress().to_bytes()
}

/// Relies on curve25519-dalek's scalar-point multiplication:
/// `k·(x·B) = (k·x)·B`.
#[verifier::external_body]
fn point_mul(k: &[u8; 32], p: &[u8; 32]) -> (r: [u8; 32])
    requires
        is_point_encoding(p@),
    ensures
        forall|x: nat|
            #![trigger ristretto_encoding(x)]
            x < group_order() && ristretto_encoding(x) == p@ ==> r@ == ristretto_encoding(
                (le_value(k@) * x) % group_order(),
            ),
        encodes_one_element(r@),
{
    let q = CompressedRistretto(*p).decompress().unwrap();
    (Scalar::from_bytes_mod_order(*k) * q).compress().to_bytes()
}

/// A scalar, used as a secret key, a nonce, a challenge or a signature.
#[derive(Clone, Copy)]
pub struct RistrettoSecretKey {
    pub(crate) bytes: [u8; 32],
}

impl View for RistrettoSecretKey {
    type V = nat;

    /// The scalar's value.
    closed spec fn view(&self) -> nat {
        le_value(self.bytes@)
    }
}

impl RistrettoSecretKey {
    #[verifier::type_invariant]
    pub(crate) open spec fn canonical(&self) -> bool {
        self@ < group_order()
    }

    /// The width of a scalar's encoding.
    pub fn key_length() -> (r: usize)
        ensures
            r == 32,
    {
        32
    }

    /// A scalar drawn from the operating system's generator: 64 random
    /// bytes reduced modulo ℓ, or nothing when the generator fails.
    pub fn random() -> (r: Option<Self>)
        ensures
            r matches Some(k) ==> k@ < group_order(),
    {
        match random_wide_bytes() {
            Some(wide) => Some(Self::from_bytes_mod_order_wide(&wide)),
            None => None,
        }
    }

    /// The 512-bit little-endian integer `bytes` reduced modulo ℓ.
    pub fn from_bytes_mod_order_wide(bytes: &[u8; 64]) -> (r: Self)
        ensures
            r@ == le_value(bytes@) % group_order(),
    {
        RistrettoSecretKey { bytes: scalar_reduce_wide(bytes) }
    }

    /// The scalar `bytes` (little-endian) reduced modulo ℓ; the bytes must be
    /// exactly 32.
    pub fn from_bytes(bytes: &[u8]) -> (r: Result<Self, Error>)
        ensures
            bytes@.len() == 32 <==> r is Ok,
            r matches Ok(k) ==> k@ == le_value(bytes@) % group_order(),
            r matches Err(e) ==> e == Error::IncorrectByteLength,
    {
        if bytes.len() != 32 {
            return Err(Error::IncorrectByteLength);
        }
        let a = to_array32(bytes);
        Ok(RistrettoSecretKey { bytes: scalar_reduce(&a) })
    }

    /// The scalar `bytes` (little-endian) reduced modulo ℓ.
    pub fn from_bytes_mod_order(bytes: &[u8; 32]) -> (r: Self)
        ensures
            r@ == le_value(bytes@) % group_order(),
    {
        RistrettoSecretKey { bytes: scalar_reduce(bytes) }
    }

    /// The scalar as 32 little-endian bytes.
    pub fn as_bytes(&self) -> (r: &[u8])
        ensures
            r@.len() == 32,
            r@ == le_bytes(self@, 32),
            le_value(r@) == self@,
    {
        proof {
            lemma_le_value_is_le_bytes(self.bytes@, self@);
        }
        self.bytes.as_slice()
    }

    /// The scalar as a 32-byte array.
    pub fn to_bytes(&self) -> (r: [u8; 32])
        ensures
            r@ == le_bytes(self@, 32),
            le_value(r@) == self@,
    {
        proof {
            lemma_le_value_is_le_bytes(self.bytes@, self@);
        }
        self.bytes
    }

    /// `self + other` modulo ℓ.
    pub fn add(&self, other: &Self) -> (r: Self)
        ensures
            r@ == (self@ + other@) % group_order(),
    {
        RistrettoSecretKey { bytes: scalar_add(&self.bytes, &other.bytes) }
    }

    /// `self - other` modulo ℓ.
    pub fn sub(&self, other: &Self) -> (r: Self)
        ensures
            r@ == (self@ - other@) % (group_order() as int),
    {
        RistrettoSecretKey { bytes: scalar_sub(&self.bytes, &other.bytes) }
    }

    /// The scalar `v`.
    pub fn from_u64(v: u64) -> (r: Self)
        ensures
            r@ == v,
    {
        proof {
            lemma_pow256_values();
        }
        let mut digits = le_encode(v, 8);
        while digits.len() < 32
            invariant
                digits@.len() <= 32,
                le_value(digits@) == v,
            decreases 32 - digits@.len(),
        {
            proof {
                lemma_le_value_push(digits@, 0u8);
            }
            digits.push(0u8);
        }
        RistrettoSecretKey { bytes: to_array32(digits.as_slice()) }
    }

    /// `self · other` modulo ℓ.
    pub fn mul(&self, other: &Self) -> (r: Self)
        ensures
            r@ == (self@ * other@) % group_order(),
    {
        RistrettoSecretKey { bytes: scalar_mul(&self.bytes, &other.bytes) }
    }
}

/// A group element, used as a public key, a public nonce or a commitment.
#[derive(Clone, Copy)]
pub struct RistrettoPublicKey {
    pub(crate) compressed: [u8; 32],
    pub(crate) log: Ghost<nat>,
}

impl View for RistrettoPublicKey {
    type V = nat;

    /// The `x < ℓ` for which the element is `x·B`.
    closed spec fn view(&self) -> nat {
        self.log@
    }
}

impl RistrettoPublicKey {
    #[verifier::type_invariant]
    pub(crate) open spec fn encodes_log(&self) -> bool {
        encodes_uniquely(self.compressed@, self@)
    }

    /// The element whose encoding is `compressed`, known to be `x·B`.
    pub(crate) fn from_encoding(compressed: [u8; 32], Ghost(x): Ghost<nat>) -> (r: Self)
        requires
            encodes_uniquely(compressed@, x),
        ensures
            r@ == x,
    {
        RistrettoPublicKey { compressed, log: Ghost(x) }
    }

    /// The element with encoding `compressed`, if there is one.
    pub fn new_from_compressed(compressed: [u8; 32]) -> (r: Option<Self>)
        ensures
            r is Some <==> is_point_encoding(compressed@),
            r matches Some(p) ==> encodes_uniquely(compressed@, p@) && p@ == point_log(compressed@),
    {
        if point_decodes(&compressed) {
            let ghost x = point_log(compressed@);
            Some(Self::from_encoding(compressed, Ghost(x)))
        } else {
            None
        }
    }

    /// `k·B`, the public key of the secret key `k`.
    pub fn from_secret_key(k: &RistrettoSecretKey) -> (r: Self)
        ensures
            r@ == k@,
    {
        proof {
            use_type_invariant(k);
            vstd::arithmetic::div_mod::lemma_small_mod(k@, group_order());
        }
        let compressed = basepoint_mul(&k.bytes);
        Self::from_encoding(compressed, Ghost(k@))
    }

    /// The element encoded by `bytes`, which must be 32 bytes long and a
    /// valid encoding.
    pub fn from_bytes(bytes: &[u8]) -> (r: Result<Self, Error>)
        ensures
            bytes@.len() != 32 ==> r == Err::<Self, Error>(Error::IncorrectByteLength),
            bytes@.len() == 32 && !is_point_encoding(bytes@) ==> r == Err::<Self, Error>(
                Error::ConversionError,
            ),
            bytes@.len() == 32 && is_point_encoding(bytes@) ==> r is Ok,
            r matches Ok(p) ==> encodes_uniquely(bytes@, p@) && p@ == point_log(bytes@),
    {
        if bytes.len() != 32 {
            return Err(Error::IncorrectByteLength);
        }
        match Self::new_from_compressed(to_array32(bytes)) {
            Some(p) => Ok(p),
            None => Err(Error::ConversionError),
        }
    }

    /// The compressed encoding of the element.
    pub fn as_bytes(&self) -> (r: &[u8])
        ensures
            r@ == ristretto_encoding(self@),
            encodes_uniquely(r@, self@),
            r@.len() == 32,
    {
        proof {
            use_type_invariant(self);
        }
        self.compressed.as_slice()
    }

    /// The compressed encoding of the element, as an array.
    pub fn to_bytes(&self) -> (r: [u8; 32])
        ensures
            r@ == ristretto_encoding(self@),
            encodes_uniquely(r@, self@),
    {
        proof {
            use_type_invariant(self);
        }
        self.compressed
    }

    /// The group sum of two elements.
    pub fn add(&self, other: &Self) -> (r: Self)
        ensures
            r@ == (self@ + other@) % group_order(),
    {
        proof {
            use_type_invariant(self);
            use_type_invariant(other);
        }
        let compressed = point_add(&self.compressed, &other.compressed);
        proof {
            let x = self@;
            let y = other@;
            assert(ristretto_encoding(x) == self.compressed@ && ristretto_encoding(y)
                == other.compressed@);
        }
        Self::from_encoding(compressed, Ghost((self@ + other@) % group_order()))
    }

    /// The element multiplied by the scalar `k`.
    pub fn mul(&self, k: &RistrettoSecretKey) -> (r: Self)
        ensures
            r@ == (k@ * self@) % group_order(),
    {
        proof {
            use_type_invariant(self);
        }
        let compressed = point_mul(&k.bytes, &self.compressed);
        proof {
            let x = self@;
            assert(ristretto_encoding(x) == self.compressed@);
        }
        Self::from_encoding(compressed, Ghost((k@ * self@) % group_order()))
    }
}

} // verus!
