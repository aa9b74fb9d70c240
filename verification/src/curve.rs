//! Points of the two BLS12-381 source groups, held in their compressed
//! encodings. Both groups are cyclic of prime order, so every point is a
//! multiple of the generator; the contracts of the trusted curve calls
//! speak of that multiple (`g1_log` / `g2_log`) and of the canonical
//! encoding of each multiple (`g1_enc` / `g2_enc`).
use crate::field::{scalar_modulus, Fr};
use bls12_381::{G1Affine, G1Projective, G2Affine, G2Projective};
use group::Curve;
use vstd::prelude::*;

verus! {

/// The compressed encoding of the G1 point `generator * x`.
pub uninterp spec fn g1_enc(x: nat) -> Seq<u8>;

/// The multiple of the G1 generator that a compressed encoding stands for.
pub uninterp spec fn g1_log(b: Seq<u8>) -> nat;

/// The compressed encoding of the G2 point `generator * x`.
pub uninterp spec fn g2_enc(x: nat) -> Seq<u8>;

/// The multiple of the G2 generator that a compressed encoding stands for.
pub uninterp spec fn g2_log(b: Seq<u8>) -> nat;

/// The encoding held by a G1 element is always 48 bytes.
pub broadcast proof fn lemma_g1_elem_len(p: G1Elem)
    ensures
        (#[trigger] p@).len() == 48,
{
}

/// The encoding held by a G2 element is always 96 bytes.
pub broadcast proof fn lemma_g2_elem_len(p: G2Elem)
    ensures
        (#[trigger] p@).len() == 96,
{
}

/// A byte sequence that is the canonical compressed encoding of a G1 point.
pub open spec fn g1_valid(b: Seq<u8>) -> bool {
    &&& b.len() == 48
    &&& g1_log(b) < scalar_modulus()
    &&& b == g1_enc(g1_log(b))
}

/// A byte sequence that is the canonical compressed encoding of a G2 point.
pub open spec fn g2_valid(b: Seq<u8>) -> bool {
    &&& b.len() == 96
    &&& g2_log(b) < scalar_modulus()
    &&& b == g2_enc(g2_log(b))
}

/// A G1 group element in compressed encoding.
#[derive(Clone, Copy)]
pub struct G1Elem {
    bytes: [u8; 48],
}

impl View for G1Elem {
    type V = Seq<u8>;

    closed spec fn view(&self) -> Seq<u8> {
        self.bytes@
    }
}

/// A G2 group element in compressed encoding.
#[derive(Clone, Copy)]
pub struct G2Elem {
    bytes: [u8; 96],
}

impl View for G2Elem {
    type V = Seq<u8>;

    closed spec fn view(&self) -> Seq<u8> {
        self.bytes@
    }
}

impl G1Elem {
    pub open spec fn wf(self) -> bool {
        g1_valid(self@)
    }

    /// The multiple of the generator this point is.
    pub open spec fn log(self) -> nat {
        g1_log(self@)
    }

    /// The compressed encoding.
    pub fn to_bytes(&self) -> (r: [u8; 48])
        ensures
            r@ == self@,
    {
        self.bytes
    }

    /// Relies on bls12_381::G1Affine::from_compressed: succeeds exactly on
    /// canonical compressed encodings of prime-order-subgroup points (it
    /// performs the subgroup check), and decoding keeps the bytes.
    #[verifier::external_body]
    pub fn from_compressed(b: &[u8]) -> (r: Option<G1Elem>)
        requires
            b@.len() == 48,
        ensures
            r is Some <==> g1_valid(b@),
            r matches Some(p) ==> p@ == b@ && g1_log(b@) < scalar_modulus(),
    {
        let arr: [u8; 48] = b.try_into().unwrap();
        if bool::from(G1Affine::from_compressed(&arr).is_some()) {
            Some(G1Elem { bytes: arr })
        } else {
            None
        }
    }
}

impl G2Elem {
    pub open spec fn wf(self) -> bool {
        g2_valid(self@)
    }

    /// The multiple of the generator this point is.
    pub open spec fn log(self) -> nat {
        g2_log(self@)
    }

    /// The compressed encoding.
    pub fn to_bytes(&self) -> (r: [u8; 96])
        ensures
            r@ == self@,
    {
        self.bytes
    }

    /// Relies on bls12_381::G2Affine::from_compressed: succeeds exactly on
    /// canonical compressed encodings of prime-order-subgroup points (it
    /// performs the subgroup check), and decoding keeps the bytes.
    #[verifier::external_body]
    pub fn from_compressed(b: &[u8]) -> (r: Option<G2Elem>)
        requires
            b@.len() == 96,
        ensures
            r is Some <==> g2_valid(b@),
            r matches Some(p) ==> p@ == b@ && g2_log(b@) < scalar_modulus(),
    {
        let arr: [u8; 96] = b.try_into().unwrap();
        if bool::from(G2Affine::from_compressed(&arr).is_some()) {
            Some(G2Elem { bytes: arr })
        } else {
            None
        }
    }
}

/// Relies on bls12_381's G1 scalar multiplication of the generator.
#[verifier::external_body]
pub fn g1_mul_gen(s: &Fr) -> (r: G1Elem)
    requires
        s.wf(),
    ensures
        r@ == g1_enc(s.val()),
        g1_log(r@) == s.val(),
{
    let k = bls12_381::Scalar::from_bytes(&s.to_bytes()).unwrap();
    G1Elem { bytes: (G1Projective::generator() * k).to_affine().to_compressed() }
}

/// Relies on bls12_381's G1 group addition.
#[verifier::external_body]
pub fn g1_add(a: &G1Elem, b: &G1Elem) -> (r: G1Elem)
    requires
        a.wf(),
        b.wf(),
    ensures
        r@ == g1_enc((a.log() + b.log()) % scalar_modulus()),
        g1_log(r@) == (a.log() + b.log()) % scalar_modulus(),
{
    let x = G1Affine::from_compressed(&a.to_bytes()).unwrap();
    let y = G1Affine::from_compressed(&b.to_bytes()).unwrap();
    G1Elem { bytes: (G1Projective::from(x) + G1Projective::from(y)).to_affine().to_compressed() }
}

/// Relies on bls12_381's G1 group subtraction.
#[verifier::external_body]
pub fn g1_sub(a: &G1Elem, b: &G1Elem) -> (r: G1Elem)
    requires
        a.wf(),
        b.wf(),
    ensures
        r@ == g1_enc(((a.log() + scalar_modulus() - b.log()) % (scalar_modulus() as int)) as nat),
        g1_log(r@) as int == (a.log() + scalar_modulus() - b.log()) % (scalar_modulus() as int),
{
    let x = G1Affine::from_compressed(&a.to_bytes()).unwrap();
    let y = G1Affine::from_compressed(&b.to_bytes()).unwrap();
    G1Elem { bytes: (G1Projective::from(x) - G1Projective::from(y)).to_affine().to_compressed() }
}

/// Relies on bls12_381's G1 scalar multiplication.
#[verifier::external_body]
pub fn g1_mul(p: &G1Elem, s: &Fr) -> (r: G1Elem)
    requires
        p.wf(),
        s.wf(),
    ensures
        r@ == g1_enc((p.log() * s.val()) % scalar_modulus()),
        g1_log(r@) == (p.log() * s.val()) % scalar_modulus(),
{
    let x = G1Affine::from_compressed(&p.to_bytes()).unwrap();
    let k = bls12_381::Scalar::from_bytes(&s.to_bytes()).unwrap();
    G1Elem { bytes: (G1Projective::from(x) * k).to_affine().to_compressed() }
}

/// Relies on bls12_381's G2 scalar multiplication of the generator.
#[verifier::external_body]
pub fn g2_mul_gen(s: &Fr) -> (r: G2Elem)
    requires
        s.wf(),
    ensures
        r@ == g2_enc(s.val()),
        g2_log(r@) == s.val(),
{
    let k = bls12_381::Scalar::from_bytes(&s.to_bytes()).unwrap();
    G2Elem { bytes: (G2Projective::generator() * k).to_affine().to_compressed() }
}

/// Relies on bls12_381's G2 group addition.
#[verifier::external_body]
pub fn g2_add(a: &G2Elem, b: &G2Elem) -> (r: G2Elem)
    requires
        a.wf(),
        b.wf(),
    ensures
        r@ == g2_enc((a.log() + b.log()) % scalar_modulus()),
        g2_log(r@) == (a.log() + b.log()) % scalar_modulus(),
{
    let x = G2Affine::from_compressed(&a.to_bytes()).unwrap();
    let y = G2Affine::from_compressed(&b.to_bytes()).unwrap();
    G2Elem { bytes: (G2Projective::from(x) + G2Projective::from(y)).to_affine().to_compressed() }
}

/// Relies on bls12_381::pairing, called on both sides: the pairing is
/// bilinear and non-degenerate on the prime-order groups, so the two values
/// in the target group are equal exactly when the products of the
/// generator multiples agree modulo the group order.
#[verifier::external_body]
pub fn pairing_check(p1: &G1Elem, q1: &G2Elem, p2: &G1Elem, q2: &G2Elem) -> (r: bool)
    requires
        p1.wf(),
        q1.wf(),
        p2.wf(),
        q2.wf(),
    ensures
        r == ((p1.log() * q1.log()) % scalar_modulus() == (p2.log() * q2.log())
            % scalar_modulus()),
{
    let a1 = G1Affine::from_compressed(&p1.to_bytes()).unwrap();
    let b1 = G2Affine::from_compressed(&q1.to_bytes()).unwrap();
    let a2 = G1Affine::from_compressed(&p2.to_bytes()).unwrap();
    let b2 = G2Affine::from_compressed(&q2.to_bytes()).unwrap();
    bls12_381::pairing(&a1, &b1) == bls12_381::pairing(&a2, &b2)
}

} // verus!
