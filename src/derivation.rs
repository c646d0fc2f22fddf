//! Deterministic key derivation from a root secret and a hierarchical path,
//! and the derivation of signing nonces.
//!
//! A key is the BLAKE2b-256 digest of a domain-separated encoding of the root
//! secret and the path, read as a scalar modulo ℓ; nothing is stored between
//! derivations.

use vstd::prelude::*;
use vstd::string::StringSliceAdditionalSpecFns;
use crate::encoding::{le_bytes, le_encode, le_value, pow256, lemma_pow256_values, lemma_le_bytes_injective};
use crate::errors::Error;
use crate::hashing::{
    blake2b_256, domain_tag, length_prefixed, transaction_domain, DomainSeparatedConsensusHasher,
};
use crate::keys::{group_order, RistrettoSecretKey};

verus! {

/// The bit that marks a hardened path segment.
pub const HARDENED: u32 = 0x8000_0000;

/// The purpose segment of every path (BIP-44).
pub const PURPOSE: u32 = 44;

/// The coin-type segment of every path.
pub const COIN_TYPE: u32 = 535348;

/// The label under which keys are derived.
pub const KEY_DERIVATION: &'static str = "key_derivation";

/// The label under which signing nonces are derived.
pub const NONCE_DERIVATION: &'static str = "signing_nonce";

/// The path `m/44'/535348'/account'/0/index`, for an account below `2^31`
/// (it is hardened) and an index below `2^32`.
pub open spec fn account_path_of(account: nat, index: nat) -> Seq<u32> {
    seq![
        (PURPOSE + HARDENED) as u32,
        (COIN_TYPE + HARDENED) as u32,
        (account + HARDENED) as u32,
        0u32,
        index as u32,
    ]
}

/// The reserved path `m/44'/535348'/0'/0/0` of the device's own key.
pub open spec fn signing_path() -> Seq<u32> {
    account_path_of(0, 0)
}

/// The path of the device's own key, used to sign and to commit.
pub fn signing_path_segments() -> (r: [u32; 5])
    ensures
        r@ == signing_path(),
{
    let r = [PURPOSE + HARDENED, COIN_TYPE + HARDENED, HARDENED, 0u32, 0u32];
    proof {
        assert(r@ =~= signing_path());
    }
    r
}

/// The path of address `index` of `account`. The account must fit a
/// hardened segment (below `2^31`) and the index a plain one (below `2^32`).
pub fn account_path(account: u64, index: u64) -> (r: Result<[u32; 5], Error>)
    ensures
        account < HARDENED && index < 0x1_0000_0000 <==> r is Ok,
        r matches Ok(p) ==> p@ == account_path_of(account as nat, index as nat),
        r matches Err(e) ==> e == Error::ConversionError,
{
    if account >= HARDENED as u64 || index >= 0x1_0000_0000u64 {
        return Err(Error::ConversionError);
    }
    let r = [PURPOSE + HARDENED, COIN_TYPE + HARDENED, account as u32 + HARDENED, 0u32, index as u32];
    proof {
        assert(r@ =~= account_path_of(account as nat, index as nat));
    }
    Ok(r)
}

/// The segments of a five-segment path, each as 4 little-endian bytes.
pub open spec fn path_bytes(path: Seq<u32>) -> Seq<u8> {
    le_bytes(path[0] as nat, 4) + le_bytes(path[1] as nat, 4) + le_bytes(path[2] as nat, 4)
        + le_bytes(path[3] as nat, 4) + le_bytes(path[4] as nat, 4)
}

/// What is hashed to derive the key of `path` from `root`.
pub open spec fn derivation_preimage(root: Seq<u8>, path: Seq<u32>) -> Seq<u8> {
    domain_tag(transaction_domain(), KEY_DERIVATION.spec_bytes()) + root + path_bytes(path)
}

/// The scalar derived for `path` from `root`.
pub open spec fn derived_key(root: Seq<u8>, path: Seq<u32>) -> nat {
    le_value(blake2b_256(derivation_preimage(root, path))) % group_order()
}

/// What is hashed to derive the nonce with which `secret` signs `message`.
pub open spec fn nonce_preimage(secret: nat, message: Seq<u8>) -> Seq<u8> {
    domain_tag(transaction_domain(), NONCE_DERIVATION.spec_bytes()) + le_bytes(secret, 32)
        + length_prefixed(message)
}

/// The nonce with which `secret` signs `message`.
pub open spec fn derived_nonce(secret: nat, message: Seq<u8>) -> nat {
    le_value(blake2b_256(nonce_preimage(secret, message))) % group_order()
}

/// The raw 32 bytes derived for `path` from `root`.
pub fn get_raw_key(root: &[u8; 32], path: &[u32; 5]) -> (r: [u8; 32])
    ensures
        r@ == blake2b_256(derivation_preimage(root@, path@)),
{
    let mut hasher = DomainSeparatedConsensusHasher::new(KEY_DERIVATION).chain_fixed(root.as_slice());
    let ghost absorbed = hasher@;
    let mut i: usize = 0;
    proof {
        lemma_pow256_values();
    }
    while i < 5
        invariant
            i <= 5,
            pow256(4) == 0x1_0000_0000,
            absorbed == domain_tag(transaction_domain(), KEY_DERIVATION.spec_bytes()) + root@,
            hasher@ == absorbed + segments_bytes(path@, i as nat),
        decreases 5 - i,
    {
        let seg = le_encode(path[i] as u64, 4);
        hasher = hasher.chain_fixed(seg.as_slice());
        proof {
            assert(hasher@ =~= absorbed + segments_bytes(path@, (i + 1) as nat));
        }
        i = i + 1;
    }
    proof {
        reveal_with_fuel(segments_bytes, 6);
        let p = path@;
        assert(segments_bytes(p, 5) == Seq::<u8>::empty() + le_bytes(p[0] as nat, 4) + le_bytes(
            p[1] as nat,
            4,
        ) + le_bytes(p[2] as nat, 4) + le_bytes(p[3] as nat, 4) + le_bytes(p[4] as nat, 4));
        assert(segments_bytes(p, 5) =~= path_bytes(p));
    }
    hasher.finalize()
}

/// The first `n` segments of `path`, each as 4 little-endian bytes.
pub open spec fn segments_bytes(path: Seq<u32>, n: nat) -> Seq<u8>
    decreases n,
{
    if n == 0 {
        Seq::empty()
    } else {
        segments_bytes(path, (n - 1) as nat) + le_bytes(path[n - 1] as nat, 4)
    }
}

/// The secret key of `path` under `root`.
pub fn derive(root: &[u8; 32], path: &[u32; 5]) -> (r: RistrettoSecretKey)
    ensures
        r@ == derived_key(root@, path@),
{
    let raw = get_raw_key(root, path);
    RistrettoSecretKey::from_bytes_mod_order(&raw)
}

/// The nonce with which `secret` signs `message`: a one-way function of both,
/// so that no nonce signs two different messages.
pub fn derive_nonce(secret: &RistrettoSecretKey, message: &[u8]) -> (r: RistrettoSecretKey)
    requires
        message@.len() < 0x1_0000_0000,
    ensures
        r@ == derived_nonce(secret@, message@),
{
    let digest = DomainSeparatedConsensusHasher::new(NONCE_DERIVATION).chain_fixed(
        secret.as_bytes(),
    ).chain(message).finalize();
    proof {
        assert(digest@ =~= blake2b_256(nonce_preimage(secret@, message@)));
    }
    RistrettoSecretKey::from_bytes_mod_order(&digest)
}

/// Derivation is a function of the root secret and the path: equal inputs
/// give equal keys.
pub proof fn lemma_derivation_deterministic(root: Seq<u8>, path_a: Seq<u32>, path_b: Seq<u32>)
    requires
        path_a == path_b,
    ensures
        derived_key(root, path_a) == derived_key(root, path_b),
{
}

/// Different root secrets or different paths are hashed from different
/// inputs, so distinct keys differ unless BLAKE2b collides.
pub proof fn lemma_derivation_inputs_differ(
    root_a: Seq<u8>,
    path_a: Seq<u32>,
    root_b: Seq<u8>,
    path_b: Seq<u32>,
)
    requires
        root_a.len() == 32,
        root_b.len() == 32,
        path_a.len() == 5,
        path_b.len() == 5,
        root_a != root_b || path_a != path_b,
    ensures
        derivation_preimage(root_a, path_a) != derivation_preimage(root_b, path_b),
{
    let t = domain_tag(transaction_domain(), KEY_DERIVATION.spec_bytes());
    let pa = derivation_preimage(root_a, path_a);
    let pb = derivation_preimage(root_b, path_b);
    lemma_path_bytes_len(path_a);
    lemma_path_bytes_len(path_b);
    if pa == pb {
        let n = t.len() as int;
        assert(pa.subrange(n, n + 32) =~= root_a);
        assert(pb.subrange(n, n + 32) =~= root_b);
        assert(pa.subrange(n + 32, n + 52) =~= path_bytes(path_a));
        assert(pb.subrange(n + 32, n + 52) =~= path_bytes(path_b));
        lemma_path_bytes_injective(path_a, path_b);
    }
}

proof fn lemma_path_bytes_len(path: Seq<u32>)
    requires
        path.len() == 5,
    ensures
        path_bytes(path).len() == 20,
{
    lemma_pow256_values();
    assert forall|i: int| 0 <= i < 5 implies le_bytes(path[i] as nat, 4).len() == 4 by {
        crate::encoding::lemma_le_bytes_value(path[i] as nat, 4);
    }
}

proof fn lemma_path_bytes_injective(a: Seq<u32>, b: Seq<u32>)
    requires
        a.len() == 5,
        b.len() == 5,
        path_bytes(a) == path_bytes(b),
    ensures
        a == b,
{
    lemma_pow256_values();
    lemma_path_bytes_len(a);
    assert forall|i: int| 0 <= i < 5 implies a[i] == b[i] by {
        crate::encoding::lemma_le_bytes_value(a[i] as nat, 4);
        crate::encoding::lemma_le_bytes_value(b[i] as nat, 4);
        let s = i * 4;
        assert(path_bytes(a).subrange(s, s + 4) == le_bytes(a[i] as nat, 4)) by {
            lemma_path_bytes_segment(a, i);
        }
        assert(path_bytes(b).subrange(s, s + 4) == le_bytes(b[i] as nat, 4)) by {
            lemma_path_bytes_segment(b, i);
        }
        lemma_le_bytes_injective(a[i] as nat, b[i] as nat, 4);
    }
    assert(a =~= b);
}

proof fn lemma_path_bytes_segment(a: Seq<u32>, i: int)
    requires
        a.len() == 5,
        0 <= i < 5,
    ensures
        path_bytes(a).subrange(i * 4, i * 4 + 4) == le_bytes(a[i] as nat, 4),
{
    lemma_pow256_values();
    assert forall|j: int| 0 <= j < 5 implies le_bytes(a[j] as nat, 4).len() == 4 by {
        crate::encoding::lemma_le_bytes_value(a[j] as nat, 4);
    }
    let b0 = le_bytes(a[0] as nat, 4);
    let b1 = le_bytes(a[1] as nat, 4);
    let b2 = le_bytes(a[2] as nat, 4);
    let b3 = le_bytes(a[3] as nat, 4);
    let b4 = le_bytes(a[4] as nat, 4);
    let p = path_bytes(a);
    assert(p == b0 + b1 + b2 + b3 + b4);
    if i == 0 {
        assert(p.subrange(0, 4) =~= b0);
    } else if i == 1 {
        assert(p.subrange(4, 8) =~= b1);
    } else if i == 2 {
        assert(p.subrange(8, 12) =~= b2);
    } else if i == 3 {
        assert(p.subrange(12, 16) =~= b3);
    } else {
        assert(p.subrange(16, 20) =~= b4);
    }
}

/// Nonces for different messages are hashed from different inputs.
pub proof fn lemma_nonce_inputs_differ(secret: nat, message_a: Seq<u8>, message_b: Seq<u8>)
    requires
        secret < group_order(),
        message_a.len() < 0x1_0000_0000,
        message_b.len() < 0x1_0000_0000,
        message_a != message_b,
    ensures
        nonce_preimage(secret, message_a) != nonce_preimage(secret, message_b),
{
    let head = domain_tag(transaction_domain(), NONCE_DERIVATION.spec_bytes()) + le_bytes(secret, 32);
    let pa = nonce_preimage(secret, message_a);
    let pb = nonce_preimage(secret, message_b);
    lemma_pow256_values();
    crate::encoding::lemma_le_bytes_value(message_a.len(), 4);
    crate::encoding::lemma_le_bytes_value(message_b.len(), 4);
    assert(pa == head + length_prefixed(message_a));
    assert(pb == head + length_prefixed(message_b));
    if pa == pb {
        let n = head.len() as int;
        assert(pa.subrange(n, pa.len() as int) =~= length_prefixed(message_a));
        assert(pb.subrange(n, pb.len() as int) =~= length_prefixed(message_b));
        let la = length_prefixed(message_a);
        let lb = length_prefixed(message_b);
        assert(la.subrange(0, 4) =~= le_bytes(message_a.len(), 4));
        assert(lb.subrange(0, 4) =~= le_bytes(message_b.len(), 4));
        lemma_le_bytes_injective(message_a.len(), message_b.len(), 4);
        assert(la.subrange(4, la.len() as int) =~= message_a);
        assert(lb.subrange(4, lb.len() as int) =~= message_b);
    }
}

} // verus!

verus! {

/// The decimal digits of `n`, in ASCII, most significant first.
pub open spec fn decimal(n: nat) -> Seq<u8>
    decreases n,
{
    if n < 10 {
        seq![(48 + n) as u8]
    } else {
        decimal(n / 10).push((48 + n % 10) as u8)
    }
}

/// The decimal text of `number`.
pub fn u64_to_string(number: u64) -> (r: Vec<u8>)
    ensures
        r@ == decimal(number as nat),
    decreases number,
{
    if number < 10 {
        vec![48u8 + number as u8]
    } else {
        let mut digits = u64_to_string(number / 10);
        digits.push(48u8 + (number % 10) as u8);
        digits
    }
}

/// The text `m/44'/535348'/<account>'/0/<index>` of an account path.
pub open spec fn account_path_text(account: nat, index: nat) -> Seq<u8> {
    seq![109u8, 47u8, 52u8, 52u8, 39u8, 47u8, 53u8, 51u8, 53u8, 51u8, 52u8, 56u8, 39u8, 47u8]
        + decimal(account) + seq![39u8, 47u8, 48u8, 47u8] + decimal(index)
}

/// Writes the path of address `index` of `account` as text.
pub fn path_text(account: u64, index: u64) -> (r: Vec<u8>)
    ensures
        r@ == account_path_text(account as nat, index as nat),
{
    let mut out: Vec<u8> = vec![109u8, 47u8, 52u8, 52u8, 39u8, 47u8, 53u8, 51u8, 53u8, 51u8, 52u8, 56u8, 39u8, 47u8];
    let a = u64_to_string(account);
    crate::hashing::append_bytes(&mut out, a.as_slice());
    let middle: Vec<u8> = vec![39u8, 47u8, 48u8, 47u8];
    crate::hashing::append_bytes(&mut out, middle.as_slice());
    let i = u64_to_string(index);
    crate::hashing::append_bytes(&mut out, i.as_slice());
    proof {
        assert(out@ =~= account_path_text(account as nat, index as nat));
    }
    out
}

} // verus!
