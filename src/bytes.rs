//! Byte-level helpers: little-endian numbers, fixed-width copies and
//! comparisons of byte arrays.
use vstd::arithmetic::div_mod::{lemma_mod_multiples_vanish, lemma_small_mod};
use vstd::prelude::*;

verus! {

/// The weight of the byte at position `n` of a little-endian number: 256 to the power `n`.
pub open spec fn place(n: nat) -> nat
    decreases n,
{
    if n == 0 {
        1
    } else {
        256 * place((n - 1) as nat)
    }
}

/// The unsigned number whose little-endian representation is `s`.
pub open spec fn le_value(s: Seq<u8>) -> nat
    decreases s.len(),
{
    if s.len() == 0 {
        0
    } else {
        (le_value(s.drop_last()) + place((s.len() - 1) as nat) * (s.last() as nat)) as nat
    }
}

/// The `n` low bytes of `v`, least significant first.
pub open spec fn le_bytes(v: nat, n: nat) -> Seq<u8>
    decreases n,
{
    if n == 0 {
        Seq::empty()
    } else {
        seq![(v % 256) as u8] + le_bytes(v / 256, (n - 1) as nat)
    }
}

/// `n` zero bytes.
pub open spec fn zeros(n: nat) -> Seq<u8> {
    Seq::new(n, |i: int| 0u8)
}

/// The 32-byte form of a little-endian number: shorter input is padded with
/// zeros at the high end, longer input keeps its 32 low bytes.
pub open spec fn fit32(s: Seq<u8>) -> Seq<u8> {
    if s.len() <= 32 {
        s + zeros((32 - s.len()) as nat)
    } else {
        s.take(32)
    }
}

pub proof fn lemma_place_positive(n: nat)
    ensures
        place(n) >= 1,
    decreases n,
{
    if n > 0 {
        lemma_place_positive((n - 1) as nat);
    }
}

pub proof fn lemma_place_adds(m: nat, n: nat)
    ensures
        place(m + n) == place(m) * place(n),
    decreases n,
{
    if n > 0 {
        lemma_place_adds(m, (n - 1) as nat);
        let a = place(m);
        let b = place((n - 1) as nat);
        let k = (m + n - 1) as nat;
        assert(k == m + (n - 1) as nat);
        assert(place(k) == a * b);
        assert(place(n) == 256 * b);
        assert(place(k + 1) == 256 * place(k));
        assert(k + 1 == m + n);
        assert(256 * (a * b) == a * (256 * b)) by (nonlinear_arith);
    } else {
        assert(place(0) == 1);
        assert(m + n == m);
    }
}

/// A little-endian number of `s.len()` bytes is below `256^s.len()`.
pub proof fn lemma_le_value_bound(s: Seq<u8>)
    ensures
        le_value(s) < place(s.len()),
    decreases s.len(),
{
    if s.len() > 0 {
        let init = s.drop_last();
        lemma_le_value_bound(init);
        let p = place(init.len());
        let d = s.last() as nat;
        assert(p * d <= p * 255) by (nonlinear_arith)
            requires
                d <= 255,
        ;
    }
}

/// The value of a concatenation: the high part is weighted by the length of the low part.
pub proof fn lemma_le_value_concat(a: Seq<u8>, b: Seq<u8>)
    ensures
        le_value(a + b) == le_value(a) + place(a.len()) * le_value(b),
    decreases b.len(),
{
    if b.len() == 0 {
        assert(a + b =~= a);
    } else {
        let b0 = b.drop_last();
        assert((a + b).drop_last() =~= a + b0);
        lemma_le_value_concat(a, b0);
        lemma_place_adds(a.len(), b0.len());
        let pa = place(a.len());
        let pb = place(b0.len());
        let d = b.last() as nat;
        let v0 = le_value(b0);
        assert((a + b).last() == b.last());
        assert((a + b).len() - 1 == a.len() + b0.len());
        assert(le_value(a + b) == le_value(a + b0) + place(a.len() + b0.len()) * d);
        assert(le_value(b) == v0 + pb * d);
        assert(pa * v0 + (pa * pb) * d == pa * (v0 + pb * d)) by (nonlinear_arith);
    }
}

pub proof fn lemma_zeros_value(n: nat)
    ensures
        le_value(zeros(n)) == 0,
    decreases n,
{
    if n > 0 {
        assert(zeros(n).drop_last() =~= zeros((n - 1) as nat));
        lemma_zeros_value((n - 1) as nat);
    }
}

/// Two little-endian representations of one length that have the same value are equal.
pub proof fn lemma_le_value_injective(a: Seq<u8>, b: Seq<u8>)
    requires
        a.len() == b.len(),
        le_value(a) == le_value(b),
    ensures
        a == b,
    decreases a.len(),
{
    if a.len() > 0 {
        let n = (a.len() - 1) as nat;
        let (a0, b0) = (a.drop_last(), b.drop_last());
        lemma_le_value_bound(a0);
        lemma_le_value_bound(b0);
        let p = place(n);
        let (x, y) = (a.last() as nat, b.last() as nat);
        let (u, v) = (le_value(a0), le_value(b0));
        assert(x == y) by (nonlinear_arith)
            requires
                u + p * x == v + p * y,
                u < p,
                v < p,
        ;
        lemma_le_value_injective(a0, b0);
        assert(a =~= b) by {
            assert(a =~= a0.push(a.last()));
            assert(b =~= b0.push(b.last()));
        }
    }
}

/// What a fixed-width copy keeps of a number: its value modulo `256^32`.
pub proof fn lemma_fit32_value(s: Seq<u8>)
    ensures
        fit32(s).len() == 32,
        le_value(fit32(s)) == le_value(s) % place(32),
{
    lemma_place_positive(32);
    if s.len() <= 32 {
        let z = zeros((32 - s.len()) as nat);
        lemma_le_value_concat(s, z);
        lemma_zeros_value((32 - s.len()) as nat);
        lemma_le_value_bound(s);
        lemma_place_adds(s.len(), (32 - s.len()) as nat);
        lemma_place_positive((32 - s.len()) as nat);
        assert(place(s.len()) <= place(32)) by (nonlinear_arith)
            requires
                place(32) == place(s.len()) * place((32 - s.len()) as nat),
                place((32 - s.len()) as nat) >= 1,
        ;
        lemma_small_mod(le_value(s), place(32));
    } else {
        let (lo, hi) = (s.take(32), s.skip(32));
        assert(s =~= lo + hi);
        lemma_le_value_concat(lo, hi);
        lemma_le_value_bound(lo);
        lemma_mod_multiples_vanish(le_value(hi) as int, le_value(lo) as int, place(32) as int);
        lemma_small_mod(le_value(lo), place(32));
    }
}

/// Copies a little-endian number into 32 bytes: the input's bytes go to the
/// low end and the rest is zero; of a longer input the 32 low bytes are kept.
pub fn to_32bytes(byte_vector: &[u8]) -> (r: [u8; 32])
    ensures
        r@ == fit32(byte_vector@),
        le_value(r@) == le_value(byte_vector@) % place(32),
{
    let mut bytes: [u8; 32] = [0u8; 32];
    let n: usize = if byte_vector.len() < 32 {
        byte_vector.len()
    } else {
        32
    };
    let mut i: usize = 0;
    while i < n
        invariant
            n <= 32,
            n <= byte_vector@.len(),
            n == 32 || n == byte_vector@.len(),
            i <= n,
            forall|k: int| 0 <= k < i ==> bytes@[k] == byte_vector@[k],
            forall|k: int| i <= k < 32 ==> bytes@[k] == 0u8,
        decreases n - i,
    {
        bytes[i] = byte_vector[i];
        i = i + 1;
    }
    assert(bytes@ =~= fit32(byte_vector@));
    proof {
        lemma_fit32_value(byte_vector@);
    }
    bytes
}

/// Whether two byte strings are equal.
pub fn bytes_equal(a: &[u8], b: &[u8]) -> (r: bool)
    ensures
        r == (a@ == b@),
{
    if a.len() != b.len() {
        return false;
    }
    let mut i: usize = 0;
    while i < a.len()
        invariant
            a@.len() == b@.len(),
            i <= a@.len(),
            forall|k: int| 0 <= k < i ==> a@[k] == b@[k],
        decreases a@.len() - i,
    {
        if a[i] != b[i] {
            return false;
        }
        i = i + 1;
    }
    assert(a@ =~= b@);
    true
}

/// Whether two 32-byte arrays are equal.
pub fn hash_equal(a: &[u8; 32], b: &[u8; 32]) -> (r: bool)
    ensures
        r == (*a == *b),
        r == (a@ == b@),
{
    let r = bytes_equal(a.as_slice(), b.as_slice());
    proof {
        if r {
            assert(*a =~= *b);
        }
    }
    r
}

/// Whether two 128-byte arrays are equal.
pub fn key_equal(a: &[u8; 128], b: &[u8; 128]) -> (r: bool)
    ensures
        r == (*a == *b),
{
    let r = bytes_equal(a.as_slice(), b.as_slice());
    proof {
        if r {
            assert(*a =~= *b);
        }
    }
    r
}

/// Appends `bytes` to `out`.
pub fn append_bytes(out: &mut Vec<u8>, bytes: &[u8])
    ensures
        final(out)@ == old(out)@ + bytes@,
{
    let ghost start = out@;
    let mut i: usize = 0;
    while i < bytes.len()
        invariant
            i <= bytes@.len(),
            out@ == start + bytes@.take(i as int),
        decreases bytes@.len() - i,
    {
        out.push(bytes[i]);
        i = i + 1;
        assert(out@ =~= start + bytes@.take(i as int));
    }
    assert(bytes@.take(bytes@.len() as int) =~= bytes@);
}

/// Appends the eight little-endian bytes of `x` to `out`.
pub fn append_u64_le(out: &mut Vec<u8>, x: u64)
    ensures
        final(out)@ == old(out)@ + le_bytes(x as nat, 8),
{
    let ghost start = out@;
    let mut v: u64 = x;
    let mut i: usize = 0;
    while i < 8
        invariant
            i <= 8,
            out@ + le_bytes(v as nat, (8 - i) as nat) == start + le_bytes(x as nat, 8),
        decreases 8 - i,
    {
        let ghost rest = le_bytes(v as nat / 256, (8 - i - 1) as nat);
        assert(le_bytes(v as nat, (8 - i) as nat) == seq![(v as nat % 256) as u8] + rest);
        out.push((v % 256) as u8);
        assert(out@ + rest =~= out@.drop_last() + (seq![(v as nat % 256) as u8] + rest));
        v = v / 256;
        i = i + 1;
    }
    assert(out@ + le_bytes(v as nat, 0) =~= out@);
}

} // verus!
