//! Little-endian integer encodings and the facts about them that the rest of
//! the library relies on.

use vstd::prelude::*;

verus! {

/// `256^n`.
pub open spec fn pow256(n: nat) -> nat
    decreases n,
{
    if n == 0 {
        1
    } else {
        256 * pow256((n - 1) as nat)
    }
}

/// The natural number whose little-endian base-256 digits are `s`.
pub open spec fn le_value(s: Seq<u8>) -> nat
    decreases s.len(),
{
    if s.len() == 0 {
        0
    } else {
        s[0] as nat + 256 * le_value(s.subrange(1, s.len() as int))
    }
}

/// The `n` little-endian base-256 digits of `x` (taken modulo `256^n`).
pub open spec fn le_bytes(x: nat, n: nat) -> Seq<u8>
    decreases n,
{
    if n == 0 {
        Seq::empty()
    } else {
        seq![(x % 256) as u8] + le_bytes(x / 256, (n - 1) as nat)
    }
}

pub proof fn lemma_pow256_positive(n: nat)
    ensures
        pow256(n) > 0,
    decreases n,
{
    if n > 0 {
        lemma_pow256_positive((n - 1) as nat);
    }
}

pub proof fn lemma_pow256_values()
    ensures
        pow256(1) == 256,
        pow256(4) == 0x1_0000_0000,
        pow256(8) == 0x1_0000_0000_0000_0000,
{
    reveal_with_fuel(pow256, 9);
}

/// A value of `n` digits is below `256^n`.
pub proof fn lemma_le_value_bound(s: Seq<u8>)
    ensures
        le_value(s) < pow256(s.len()),
    decreases s.len(),
{
    if s.len() > 0 {
        let t = s.subrange(1, s.len() as int);
        lemma_le_value_bound(t);
        assert(pow256(s.len()) == 256 * pow256(t.len()));
        assert(le_value(s) == s[0] as nat + 256 * le_value(t));
        assert(s[0] as nat + 256 * le_value(t) < 256 * pow256(t.len())) by (nonlinear_arith)
            requires
                le_value(t) < pow256(t.len()),
                s[0] < 256,
        ;
    }
}

/// Appending a digit adds it at the next power of 256.
pub proof fn lemma_le_value_push(s: Seq<u8>, b: u8)
    ensures
        le_value(s.push(b)) == le_value(s) + b as nat * pow256(s.len()),
    decreases s.len(),
{
    let p = s.push(b);
    if s.len() == 0 {
        assert(p.subrange(1, p.len() as int) =~= Seq::<u8>::empty());
        assert(le_value(p) == p[0] as nat + 256 * le_value(Seq::<u8>::empty()));
        assert(le_value(s) == 0);
        assert(p[0] == b);
        assert(pow256(0) == 1);
        assert(le_value(Seq::<u8>::empty()) == 0);
        assert(pow256(s.len()) == 1);
        assert(b as nat * pow256(s.len()) == b as nat) by (nonlinear_arith)
            requires
                pow256(s.len()) == 1,
        ;
    } else {
        let t = s.subrange(1, s.len() as int);
        assert(p.subrange(1, p.len() as int) =~= t.push(b));
        assert(p[0] == s[0]);
        assert(le_value(p) == p[0] as nat + 256 * le_value(t.push(b)));
        assert(le_value(s) == s[0] as nat + 256 * le_value(t));
        assert(pow256(s.len()) == 256 * pow256(t.len()));
        lemma_le_value_push(t, b);
        assert(256 * (le_value(t) + b as nat * pow256(t.len())) == 256 * le_value(t) + b as nat * (256
            * pow256(t.len()))) by (nonlinear_arith);
    }
}

/// Digits of equal length and equal value are equal.
pub proof fn lemma_le_value_injective(s: Seq<u8>, t: Seq<u8>)
    requires
        s.len() == t.len(),
        le_value(s) == le_value(t),
    ensures
        s == t,
    decreases s.len(),
{
    if s.len() > 0 {
        let s1 = s.subrange(1, s.len() as int);
        let t1 = t.subrange(1, t.len() as int);
        assert(s[0] as nat == le_value(s) % 256 && le_value(s1) == le_value(s) / 256) by {
            assert(le_value(s) == s[0] as nat + 256 * le_value(s1));
        }
        assert(t[0] as nat == le_value(t) % 256 && le_value(t1) == le_value(t) / 256) by {
            assert(le_value(t) == t[0] as nat + 256 * le_value(t1));
        }
        lemma_le_value_injective(s1, t1);
        assert(s =~= seq![s[0]] + s1);
        assert(t =~= seq![t[0]] + t1);
    } else {
        assert(s =~= t);
    }
}

/// Reads an unsigned little-endian integer of `b.len()` bytes.
pub fn le_decode(b: &[u8]) -> (r: u64)
    requires
        b.len() <= 8,
    ensures
        r as nat == le_value(b@),
{
    let n = b.len();
    let mut i: usize = n;
    let mut acc: u64 = 0;
    proof {
        assert(b@.subrange(n as int, n as int) =~= Seq::<u8>::empty());
        lemma_pow256_values();
    }
    while i > 0
        invariant
            n == b.len(),
            n <= 8,
            i <= n,
            acc as nat == le_value(b@.subrange(i as int, n as int)),
            pow256(8) == 0x1_0000_0000_0000_0000,
        decreases i,
    {
        let ghost tail = b@.subrange(i as int, n as int);
        proof {
            lemma_le_value_bound(tail);
            lemma_pow256_monotone(tail.len(), 7);
        }
        i = i - 1;
        let ghost s = b@.subrange(i as int, n as int);
        proof {
            assert(s.subrange(1, s.len() as int) =~= tail);
            assert(le_value(s) == b@[i as int] as nat + 256 * le_value(tail));
            assert(pow256(8) == 256 * pow256(7));
            assert(b@[i as int] as nat + 256 * (acc as nat) < pow256(8)) by (nonlinear_arith)
                requires
                    acc < pow256(7),
                    b@[i as int] < 256,
                    pow256(8) == 256 * pow256(7),
            ;
        }
        acc = (b[i] as u64) + 256 * acc;
    }
    proof {
        assert(b@.subrange(0, n as int) =~= b@);
    }
    acc
}

pub proof fn lemma_pow256_monotone(a: nat, b: nat)
    requires
        a <= b,
    ensures
        pow256(a) <= pow256(b),
    decreases b,
{
    if a < b {
        lemma_pow256_monotone(a, (b - 1) as nat);
        lemma_pow256_positive((b - 1) as nat);
    }
}

/// Writes `v` as an unsigned little-endian integer of `n` bytes.
pub fn le_encode(v: u64, n: usize) -> (r: Vec<u8>)
    requires
        n <= 8,
        v < pow256(n as nat),
    ensures
        r@.len() == n,
        le_value(r@) == v,
        r@ == le_bytes(v as nat, n as nat),
{
    let mut out: Vec<u8> = Vec::new();
    let mut rest: u64 = v;
    let mut i: usize = 0;
    proof {
        assert(le_value(out@) == 0);
        assert(pow256(0) == 1);
        assert(pow256(0) * (rest as nat) == rest as nat) by (nonlinear_arith)
            requires
                pow256(0) == 1,
        ;
        assert(le_bytes(v as nat, n as nat) =~= out@ + le_bytes(rest as nat, (n - i) as nat));
    }
    while i < n
        invariant
            i <= n,
            out@.len() == i,
            v as nat == le_value(out@) + pow256(i as nat) * rest,
            le_bytes(v as nat, n as nat) == out@ + le_bytes(rest as nat, (n - i) as nat),
        decreases n - i,
    {
        let d = (rest % 256) as u8;
        proof {
            lemma_le_value_push(out@, d);
            assert(pow256((i + 1) as nat) == 256 * pow256(i as nat));
            let ghost pi = pow256(i as nat);
            assert(pi * (rest as nat) == (d as nat) * pi + (256 * pi) * ((rest / 256) as nat))
                by (nonlinear_arith)
                requires
                    d as nat == rest % 256,
            ;
            assert(le_bytes(rest as nat, (n - i) as nat) == seq![d] + le_bytes(
                (rest / 256) as nat,
                (n - i - 1) as nat,
            ));
            assert(out@ + le_bytes(rest as nat, (n - i) as nat) =~= out@.push(d) + le_bytes(
                (rest / 256) as nat,
                (n - i - 1) as nat,
            ));
        }
        out.push(d);
        rest = rest / 256;
        i = i + 1;
    }
    proof {
        assert(out@ + le_bytes(rest as nat, 0) =~= out@);
        lemma_le_value_bound(out@);
        if rest > 0 {
            assert(pow256(n as nat) * rest >= pow256(n as nat)) by (nonlinear_arith)
                requires
                    rest > 0,
            ;
        }
    }
    out
}

} // verus!

verus! {

/// Copies a 32-byte slice into an array.
pub fn to_array32(b: &[u8]) -> (r: [u8; 32])
    requires
        b@.len() == 32,
    ensures
        r@ == b@,
{
    let mut a = [0u8; 32];
    let mut i: usize = 0;
    while i < 32
        invariant
            i <= 32,
            b@.len() == 32,
            forall|j: int| 0 <= j < i ==> a@[j] == b@[j],
        decreases 32 - i,
    {
        a[i] = b[i];
        i = i + 1;
    }
    proof {
        assert(a@ =~= b@);
    }
    a
}

} // verus!

verus! {

/// Whether two 32-byte arrays hold the same bytes.
pub fn bytes_equal(a: &[u8; 32], b: &[u8; 32]) -> (r: bool)
    ensures
        r == (a@ == b@),
{
    let mut i: usize = 0;
    while i < 32
        invariant
            i <= 32,
            forall|j: int| 0 <= j < i ==> a@[j] == b@[j],
        decreases 32 - i,
    {
        if a[i] != b[i] {
            return false;
        }
        i = i + 1;
    }
    proof {
        assert(a@ =~= b@);
    }
    true
}

} // verus!

verus! {

/// Writing `x` in `n` digits and reading it back gives `x`, when it fits.
pub proof fn lemma_le_bytes_value(x: nat, n: nat)
    requires
        x < pow256(n),
    ensures
        le_bytes(x, n).len() == n,
        le_value(le_bytes(x, n)) == x,
    decreases n,
{
    if n == 0 {
        assert(le_bytes(x, n) =~= Seq::<u8>::empty());
    } else {
        let t = le_bytes(x / 256, (n - 1) as nat);
        assert(pow256(n) == 256 * pow256((n - 1) as nat));
        assert(x / 256 < pow256((n - 1) as nat)) by {
            vstd::arithmetic::div_mod::lemma_div_by_multiple_is_strongly_ordered(
                x as int, (256 * pow256((n - 1) as nat)) as int, pow256((n - 1) as nat) as int, 256);
        }
        lemma_le_bytes_value(x / 256, (n - 1) as nat);
        let s = le_bytes(x, n);
        assert(s == seq![(x % 256) as u8] + t);
        assert(s.subrange(1, s.len() as int) =~= t);
        assert(le_value(s) == s[0] as nat + 256 * le_value(t));
        vstd::arithmetic::div_mod::lemma_fundamental_div_mod(x as int, 256);
    }
}

/// Digits of length `n` whose value is `x` are the digits `le_bytes(x, n)`.
pub proof fn lemma_le_value_is_le_bytes(s: Seq<u8>, x: nat)
    requires
        le_value(s) == x,
    ensures
        s == le_bytes(x, s.len()),
{
    lemma_le_value_bound(s);
    lemma_le_bytes_value(x, s.len());
    lemma_le_value_injective(s, le_bytes(x, s.len()));
}

/// Equal digit strings of length `n` come from equal values below `256^n`.
pub proof fn lemma_le_bytes_injective(x: nat, y: nat, n: nat)
    requires
        x < pow256(n),
        y < pow256(n),
        le_bytes(x, n) == le_bytes(y, n),
    ensures
        x == y,
{
    lemma_le_bytes_value(x, n);
    lemma_le_bytes_value(y, n);
}

} // verus!

verus! {

/// The lower-case hexadecimal digit of `d < 16`, in ASCII.
pub open spec fn hex_digit(d: nat) -> u8 {
    if d < 10 {
        (48 + d) as u8
    } else {
        (87 + d) as u8
    }
}

/// The two lower-case hexadecimal digits of `byte`, high digit first, used
/// to show an unknown opcode.
pub fn byte_to_hex(byte: u8) -> (r: [u8; 2])
    ensures
        r@ == seq![hex_digit(byte as nat / 16), hex_digit(byte as nat % 16)],
{
    let hi = byte / 16;
    let lo = byte % 16;
    let h = if hi < 10 { 48 + hi } else { 87 + hi };
    let l = if lo < 10 { 48 + lo } else { 87 + lo };
    let r = [h, l];
    proof {
        assert(r@ =~= seq![hex_digit(byte as nat / 16), hex_digit(byte as nat % 16)]);
    }
    r
}

} // verus!
