//! A string of at most `N` bytes held in a fixed array, padded with zeros.

use vstd::prelude::*;
use vstd::string::StringSliceAdditionalSpecFns;
use vstd::utf8::valid_utf8;
use vstd::slice::slice_subrange;

verus! {

/// The length of `s` without its trailing zero bytes.
pub open spec fn trimmed_len(s: Seq<u8>) -> nat
    decreases s.len(),
{
    if s.len() == 0 {
        0
    } else if s.last() == 0 {
        trimmed_len(s.drop_last())
    } else {
        s.len()
    }
}

/// `s` without its trailing zeros, padded with zeros to `n` bytes.
pub open spec fn padded(s: Seq<u8>, n: nat) -> Seq<u8> {
    s.subrange(0, trimmed_len(s) as int) + Seq::new((n - trimmed_len(s)) as nat, |i: int| 0u8)
}

pub proof fn lemma_trimmed_len_bound(s: Seq<u8>)
    ensures
        trimmed_len(s) <= s.len(),
    decreases s.len(),
{
    if s.len() > 0 && s.last() == 0 {
        lemma_trimmed_len_bound(s.drop_last());
    }
}

/// Relies on `core::str::from_utf8`, which accepts exactly the valid UTF-8
/// byte strings and keeps their bytes.
#[verifier::external_body]
fn utf8_str(b: &[u8]) -> (r: Option<&str>)
    ensures
        r is Some <==> valid_utf8(b@),
        r matches Some(s) ==> s.spec_bytes() == b@,
{
    core::str::from_utf8(b).ok()
}

/// The length of `b` without its trailing zero bytes.
fn trimmed_length(b: &[u8]) -> (r: usize)
    ensures
        r == trimmed_len(b@),
{
    let mut size = b.len();
    proof {
        assert(b@.subrange(0, size as int) =~= b@);
    }
    while size > 0 && b[size - 1] == 0
        invariant
            size <= b@.len(),
            trimmed_len(b@) == trimmed_len(b@.subrange(0, size as int)),
        decreases size,
    {
        proof {
            let s = b@.subrange(0, size as int);
            assert(s.drop_last() =~= b@.subrange(0, size - 1));
        }
        size = size - 1;
    }
    proof {
        let s = b@.subrange(0, size as int);
        if size == 0 {
            assert(trimmed_len(s) == 0);
        } else {
            assert(s.last() != 0);
        }
    }
    size
}

/// A string of at most `N` bytes, without zero bytes, padded with zeros.
#[derive(Clone, Copy)]
pub struct ArrayString<const N: usize> {
    bytes: [u8; N],
}

impl<const N: usize> View for ArrayString<N> {
    type V = Seq<u8>;

    /// All `N` bytes, padding included.
    closed spec fn view(&self) -> Seq<u8> {
        self.bytes@
    }
}

impl<const N: usize> ArrayString<N> {
    /// The empty string.
    pub fn new() -> (r: Self)
        ensures
            r@ == Seq::new(N as nat, |i: int| 0u8),
    {
        let r = ArrayString { bytes: [0u8; N] };
        proof {
            assert(r@ =~= Seq::new(N as nat, |i: int| 0u8));
        }
        r
    }

    /// Sets the string to `bytes` without its trailing zeros, which must fit
    /// in `N` bytes.
    pub fn set_from_bytes(&mut self, bytes: &[u8])
        requires
            trimmed_len(bytes@) <= N,
        ensures
            final(self)@ == padded(bytes@, N as nat),
    {
        let len = trimmed_length(bytes);
        proof {
            lemma_trimmed_len_bound(bytes@);
        }
        let mut i: usize = 0;
        while i < N
            invariant
                len == trimmed_len(bytes@),
                len <= N,
                len <= bytes@.len(),
                self.bytes@.len() == N,
                i <= N,
                forall|j: int| 0 <= j < i ==> self.bytes@[j] == padded(bytes@, N as nat)[j],
            decreases N - i,
        {
            if i < len {
                self.bytes[i] = bytes[i];
            } else {
                self.bytes[i] = 0;
            }
            i = i + 1;
        }
        proof {
            assert(self@ =~= padded(bytes@, N as nat));
        }
    }

    /// The string holding `bytes` without their trailing zeros, which must
    /// fit in `N` bytes.
    pub fn from_bytes(bytes: &[u8]) -> (r: Self)
        requires
            trimmed_len(bytes@) <= N,
        ensures
            r@ == padded(bytes@, N as nat),
    {
        let mut result = Self::new();
        result.set_from_bytes(bytes);
        result
    }

    /// The number of bytes in the string.
    pub fn len(&self) -> (r: usize)
        ensures
            r == trimmed_len(self@),
    {
        trimmed_length(self.bytes.as_slice())
    }

    /// All `N` bytes, padding included.
    pub fn bytes(&self) -> (r: &[u8; N])
        ensures
            r@ == self@,
    {
        &self.bytes
    }

    /// The string as text; its bytes must be valid UTF-8.
    pub fn as_str(&self) -> (r: &str)
        requires
            valid_utf8(self@.subrange(0, trimmed_len(self@) as int)),
        ensures
            r.spec_bytes() == self@.subrange(0, trimmed_len(self@) as int),
    {
        let len = self.len();
        proof {
            lemma_trimmed_len_bound(self@);
        }
        let content = slice_subrange(self.bytes.as_slice(), 0, len);
        match utf8_str(content) {
            Some(s) => s,
            None => "",
        }
    }
}

} // verus!

verus! {

/// Past its trimmed length a byte string holds only zeros.
pub proof fn lemma_trimmed_tail_zero(s: Seq<u8>)
    ensures
        trimmed_len(s) <= s.len(),
        forall|j: int| trimmed_len(s) <= j < s.len() ==> s[j] == 0,
    decreases s.len(),
{
    lemma_trimmed_len_bound(s);
    if s.len() > 0 && s.last() == 0 {
        let t = s.drop_last();
        lemma_trimmed_tail_zero(t);
        assert forall|j: int| trimmed_len(s) <= j < s.len() implies s[j] == 0 by {
            if j < t.len() {
                assert(t[j] == s[j]);
            }
        }
    }
}

/// A string that fills the whole array is stored as it stands.
pub proof fn lemma_padded_full(s: Seq<u8>)
    ensures
        padded(s, s.len()) == s,
{
    lemma_trimmed_tail_zero(s);
    assert(padded(s, s.len()) =~= s);
}

} // verus!
