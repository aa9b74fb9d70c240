//! Byte-level helpers shared by the wire formats: little-endian values,
//! slice equality, and small utilities over byte vectors.
use vstd::prelude::*;

verus! {

/// The value of a byte sequence read as a little-endian unsigned integer.
pub open spec fn le_val(s: Seq<u8>) -> nat
    decreases s.len(),
{
    if s.len() == 0 {
        0
    } else {
        (s[0] as nat) + 256 * le_val(s.subrange(1, s.len() as int))
    }
}

/// A little-endian byte sequence of length `n` holding `x mod 256^n`.
pub open spec fn le_bytes(x: nat, n: int) -> Seq<u8>
    decreases n,
{
    if n <= 0 {
        Seq::empty()
    } else {
        seq![(x % 256) as u8] + le_bytes(x / 256, n - 1)
    }
}

/// Appends the bytes of `src` to `out`.
pub fn extend_bytes(out: &mut Vec<u8>, src: &[u8])
    ensures
        final(out)@ == old(out)@ + src@,
{
    let mut i: usize = 0;
    while i < src.len()
        invariant
            i <= src@.len(),
            out@ == old(out)@ + src@.subrange(0, i as int),
        decreases src@.len() - i,
    {
        out.push(src[i]);
        i = i + 1;
        proof {
            assert(src@.subrange(0, i as int) == src@.subrange(0, i - 1) + seq![src@[i - 1]]);
        }
    }
    proof {
        assert(src@.subrange(0, src@.len() as int) == src@);
    }
}

/// Compares two byte slices for equality.
pub fn bytes_eq(a: &[u8], b: &[u8]) -> (r: bool)
    ensures
        r == (a@ =~= b@),
{
    if a.len() != b.len() {
        return false;
    }
    let mut i: usize = 0;
    while i < a.len()
        invariant
            a@.len() == b@.len(),
            i <= a@.len(),
            forall|j: int| 0 <= j < i ==> a@[j] == b@[j],
        decreases a@.len() - i,
    {
        if a[i] != b[i] {
            return false;
        }
        i = i + 1;
    }
    true
}

/// Two equally long byte sequences with the same little-endian value are equal.
pub proof fn lemma_le_val_injective(a: Seq<u8>, b: Seq<u8>)
    requires
        a.len() == b.len(),
        le_val(a) == le_val(b),
    ensures
        a =~= b,
    decreases a.len(),
{
    if a.len() > 0 {
        let ta = a.subrange(1, a.len() as int);
        let tb = b.subrange(1, b.len() as int);
        vstd::arithmetic::div_mod::lemma_fundamental_div_mod_converse(
            le_val(a) as int, 256, le_val(ta) as int, a[0] as int);
        vstd::arithmetic::div_mod::lemma_fundamental_div_mod_converse(
            le_val(b) as int, 256, le_val(tb) as int, b[0] as int);
        lemma_le_val_injective(ta, tb);
        assert forall|i: int| 0 <= i < a.len() implies a[i] == b[i] by {
            if i > 0 {
                assert(a[i] == ta[i - 1]);
                assert(b[i] == tb[i - 1]);
            }
        }
    }
}

} // verus!
