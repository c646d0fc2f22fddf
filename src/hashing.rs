//! BLAKE2b-256 hashing, and the domain-separated hasher that builds
//! signature challenges and derivation inputs.

use vstd::prelude::*;
use digest::Digest;
use vstd::string::StringSliceAdditionalSpecFns;
use crate::encoding::{le_bytes, le_encode, pow256, lemma_pow256_values};

verus! {

/// The 32-byte BLAKE2b digest of `data`.
pub uninterp spec fn blake2b_256(data: Seq<u8>) -> Seq<u8>;

/// Relies on `blake2::Blake2b<U32>` (BLAKE2b with a 32-byte output): the digest
/// of a byte string depends on those bytes alone.
#[verifier::external_body]
fn blake2b_256_digest(data: &[u8]) -> (r: [u8; 32])
    ensures
        r@ == blake2b_256(data@),
{
    blake2::Blake2b::<digest::consts::U32>::digest(data).into()
}

/// Appends `s` to `v`.
pub fn append_bytes(v: &mut Vec<u8>, s: &[u8])
    ensures
        final(v)@ == old(v)@ + s@,
{
    let mut i: usize = 0;
    while i < s.len()
        invariant
            i <= s@.len(),
            v@ == old(v)@ + s@.subrange(0, i as int),
        decreases s@.len() - i,
    {
        proof {
            assert(s@.subrange(0, i + 1) =~= s@.subrange(0, i as int).push(s@[i as int]));
        }
        v.push(s[i]);
        i = i + 1;
    }
    proof {
        assert(s@.subrange(0, s@.len() as int) =~= s@);
    }
}

/// A 256-bit BLAKE2b hasher: it collects the bytes it is given and digests
/// them when finalized.
pub struct Blake256 {
    data: Vec<u8>,
}

impl View for Blake256 {
    type V = Seq<u8>;

    /// The bytes absorbed so far.
    closed spec fn view(&self) -> Seq<u8> {
        self.data@
    }
}

impl Blake256 {
    /// A hasher that has absorbed nothing.
    pub fn new() -> (r: Self)
        ensures
            r@ == Seq::<u8>::empty(),
    {
        Blake256 { data: Vec::new() }
    }

    /// Absorbs `bytes`.
    pub fn update(&mut self, bytes: &[u8])
        ensures
            final(self)@ == old(self)@ + bytes@,
    {
        append_bytes(&mut self.data, bytes);
    }

    /// Absorbs `bytes` and hands the hasher back.
    pub fn chain(self, bytes: &[u8]) -> (r: Self)
        ensures
            r@ == self@ + bytes@,
    {
        let mut h = self;
        h.update(bytes);
        h
    }

    /// Forgets everything absorbed.
    pub fn reset(&mut self)
        ensures
            final(self)@ == Seq::<u8>::empty(),
    {
        self.data = Vec::new();
    }

    /// The digest of everything absorbed.
    pub fn finalize(self) -> (r: [u8; 32])
        ensures
            r@ == blake2b_256(self@),
    {
        blake2b_256_digest(self.data.as_slice())
    }
}

/// The domain under which transaction hashes are separated.
pub open spec fn transaction_domain() -> Seq<u8> {
    seq![
        99u8, 111u8, 109u8, 46u8, 116u8, 97u8, 114u8, 105u8, 46u8, 98u8, 97u8, 115u8, 101u8, 95u8,
        108u8, 97u8, 121u8, 101u8, 114u8, 46u8, 99u8, 111u8, 114u8, 101u8, 46u8, 116u8, 114u8, 97u8,
        110u8, 115u8, 97u8, 99u8, 116u8, 105u8, 111u8, 110u8, 115u8,
    ]
}

/// The bytes of `"com.tari.base_layer.core.transactions"`.
fn transaction_domain_bytes() -> (r: Vec<u8>)
    ensures
        r@ == transaction_domain(),
{
    let r = vec![
        99u8, 111u8, 109u8, 46u8, 116u8, 97u8, 114u8, 105u8, 46u8, 98u8, 97u8, 115u8, 101u8, 95u8,
        108u8, 97u8, 121u8, 101u8, 114u8, 46u8, 99u8, 111u8, 114u8, 101u8, 46u8, 116u8, 114u8, 97u8,
        110u8, 115u8, 97u8, 99u8, 116u8, 105u8, 111u8, 110u8, 115u8,
    ];
    proof {
        assert(r@ =~= transaction_domain());
    }
    r
}

/// The text of the tag for `label` in `domain`: `<domain>.v0.<label>`, or
/// `<domain>.v0` for an empty label.
pub open spec fn tag_text(domain: Seq<u8>, label: Seq<u8>) -> Seq<u8> {
    domain + seq![46u8, 118u8, 48u8] + if label.len() == 0 {
        Seq::<u8>::empty()
    } else {
        seq![46u8] + label
    }
}

/// What a domain-separated hasher absorbs before any caller data: the tag's
/// length as 8 little-endian bytes, then the tag.
pub open spec fn domain_tag(domain: Seq<u8>, label: Seq<u8>) -> Seq<u8> {
    le_bytes(tag_text(domain, label).len(), 8) + tag_text(domain, label)
}

/// The canonical encoding of a variable-length byte string: its length as 4
/// little-endian bytes, then the bytes.
pub open spec fn length_prefixed(data: Seq<u8>) -> Seq<u8> {
    le_bytes(data.len(), 4) + data
}

/// Hands out hashers separated by the transaction domain.
pub struct DomainSeparatedConsensusHasher;

impl DomainSeparatedConsensusHasher {
    /// A hasher that has absorbed the domain separation tag for `label`.
    pub fn new(label: &str) -> (r: ConsensusHasher)
        ensures
            r@ == domain_tag(transaction_domain(), label.spec_bytes()),
    {
        let label_bytes = label.as_bytes();
        let mut text = transaction_domain_bytes();
        let suffix = vec![46u8, 118u8, 48u8];
        append_bytes(&mut text, suffix.as_slice());
        if label_bytes.len() > 0 {
            let dot = vec![46u8];
            append_bytes(&mut text, dot.as_slice());
            append_bytes(&mut text, label_bytes);
        }
        proof {
            assert(text@ =~= tag_text(transaction_domain(), label.spec_bytes()));
            lemma_pow256_values();
        }
        let len_bytes = le_encode(text.len() as u64, 8);
        let hasher = Blake256::new().chain(len_bytes.as_slice()).chain(text.as_slice());
        proof {
            assert(hasher@ =~= domain_tag(transaction_domain(), label.spec_bytes()));
        }
        ConsensusHasher { hasher }
    }
}

/// A hasher that absorbs values in their canonical encoding.
pub struct ConsensusHasher {
    hasher: Blake256,
}

impl View for ConsensusHasher {
    type V = Seq<u8>;

    /// The bytes absorbed so far.
    closed spec fn view(&self) -> Seq<u8> {
        self.hasher@
    }
}

impl ConsensusHasher {
    /// Absorbs a variable-length byte string, length first.
    pub fn update_consensus_encode(&mut self, data: &[u8])
        requires
            data@.len() < 0x1_0000_0000,
        ensures
            final(self)@ == old(self)@ + length_prefixed(data@),
    {
        proof {
            lemma_pow256_values();
        }
        let len_bytes = le_encode(data.len() as u64, 4);
        self.hasher.update(len_bytes.as_slice());
        self.hasher.update(data);
        proof {
            assert(self@ =~= old(self)@ + length_prefixed(data@));
        }
    }

    /// Absorbs a variable-length byte string, length first, and hands the
    /// hasher back.
    pub fn chain(self, data: &[u8]) -> (r: Self)
        requires
            data@.len() < 0x1_0000_0000,
        ensures
            r@ == self@ + length_prefixed(data@),
    {
        let mut h = self;
        h.update_consensus_encode(data);
        h
    }

    /// Absorbs a fixed-width value as it stands, and hands the hasher back.
    pub fn chain_fixed(self, data: &[u8]) -> (r: Self)
        ensures
            r@ == self@ + data@,
    {
        let mut h = self;
        h.hasher.update(data);
        h
    }

    /// The digest of everything absorbed.
    pub fn finalize(self) -> (r: [u8; 32])
        ensures
            r@ == blake2b_256(self@),
    {
        self.hasher.finalize()
    }
}

} // verus!

verus! {

/// Hashers made for two different labels have absorbed different bytes
/// whatever data follows, so their digests differ unless BLAKE2b collides.
pub proof fn lemma_domain_separation(
    domain: Seq<u8>,
    label_a: Seq<u8>,
    label_b: Seq<u8>,
    data: Seq<u8>,
)
    requires
        domain.len() + label_a.len() + label_b.len() < 0x1_0000_0000,
        label_a != label_b,
    ensures
        domain_tag(domain, label_a) + data != domain_tag(domain, label_b) + data,
{
    let ta = tag_text(domain, label_a);
    let tb = tag_text(domain, label_b);
    let ua = domain_tag(domain, label_a) + data;
    let ub = domain_tag(domain, label_b) + data;
    lemma_pow256_values();
    crate::encoding::lemma_le_bytes_value(ta.len(), 8);
    crate::encoding::lemma_le_bytes_value(tb.len(), 8);
    if ua == ub {
        assert(ua.subrange(0, 8) =~= le_bytes(ta.len(), 8));
        assert(ub.subrange(0, 8) =~= le_bytes(tb.len(), 8));
        crate::encoding::lemma_le_bytes_injective(ta.len(), tb.len(), 8);
        let n = ta.len() as int;
        assert(ua.subrange(8, 8 + n) =~= ta);
        assert(ub.subrange(8, 8 + n) =~= tb);
        let k: int = domain.len() as int + 3;
        if label_a.len() == 0 {
            assert(label_b.len() != 0) by {
                if label_b.len() == 0 {
                    assert(label_a =~= label_b);
                }
            }
        } else if label_b.len() == 0 {
        } else {
            assert(ta.subrange(k + 1, n) =~= label_a);
            assert(tb.subrange(k + 1, n) =~= label_b);
        }
    }
}

} // verus!
