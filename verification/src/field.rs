//! Elements of the BLS12-381 scalar field, held in their canonical 32-byte
//! little-endian encodings. All arithmetic goes through the curve library;
//! each call is trusted with an exact modular contract over the encoding.
use crate::wire::{bytes_eq, le_val, lemma_le_val_injective};
use bls12_381::Scalar;
use ff::Field;
use vstd::prelude::*;

verus! {

/// Order of the BLS12-381 scalar field.
pub open spec fn scalar_modulus() -> nat {
    0x73eda753299d7d483339d80809a1d80553bda402fffe5bfeffffffff00000001nat
}

/// A scalar-field element in canonical little-endian encoding.
#[derive(Clone, Copy)]
pub struct Fr {
    bytes: [u8; 32],
}

impl View for Fr {
    type V = Seq<u8>;

    closed spec fn view(&self) -> Seq<u8> {
        self.bytes@
    }
}

/// The encoding held by a field element is always 32 bytes.
pub broadcast proof fn lemma_fr_len(f: Fr)
    ensures
        (#[trigger] f@).len() == 32,
{
}

impl Fr {
    /// The field value encoded by this element.
    pub open spec fn val(self) -> nat {
        le_val(self@)
    }

    /// Canonical form: 32 bytes encoding a value below the field order.
    pub open spec fn wf(self) -> bool {
        self@.len() == 32 && self.val() < scalar_modulus()
    }

    /// The canonical little-endian encoding.
    pub fn to_bytes(&self) -> (r: [u8; 32])
        ensures
            r@ == self@,
    {
        self.bytes
    }

    /// Relies on bls12_381::Scalar::from_bytes: accepts exactly the
    /// canonical little-endian encodings, the values below the field order.
    #[verifier::external_body]
    pub fn from_bytes(b: &[u8]) -> (r: Option<Fr>)
        requires
            b@.len() == 32,
        ensures
            r is Some <==> le_val(b@) < scalar_modulus(),
            r matches Some(f) ==> f@ == b@,
    {
        let arr: [u8; 32] = b.try_into().unwrap();
        if bool::from(Scalar::from_bytes(&arr).is_some()) {
            Some(Fr { bytes: arr })
        } else {
            None
        }
    }

    /// Relies on bls12_381::Scalar::from_bytes_wide: reduces a 512-bit
    /// little-endian integer modulo the field order.
    #[verifier::external_body]
    pub fn from_bytes_wide(b: &[u8]) -> (r: Fr)
        requires
            b@.len() == 64,
        ensures
            r.wf(),
            r.val() == le_val(b@) % scalar_modulus(),
    {
        let arr: [u8; 64] = b.try_into().unwrap();
        Fr { bytes: Scalar::from_bytes_wide(&arr).to_bytes() }
    }

    /// Relies on bls12_381::Scalar::from: embeds a 64-bit integer, which is
    /// below the field order.
    #[verifier::external_body]
    pub fn from_u64(x: u64) -> (r: Fr)
        ensures
            r.wf(),
            r.val() == x as nat,
    {
        Fr { bytes: Scalar::from(x).to_bytes() }
    }

    /// Relies on ff::Field::random over rand::thread_rng: some field element.
    #[verifier::external_body]
    pub fn random() -> (r: Fr)
        ensures
            r.wf(),
    {
        Fr { bytes: Scalar::random(&mut rand::thread_rng()).to_bytes() }
    }

    /// The zero element.
    pub fn zero() -> (r: Fr)
        ensures
            r.wf(),
            r.val() == 0,
    {
        Fr::from_u64(0)
    }

    /// The unit element.
    pub fn one() -> (r: Fr)
        ensures
            r.wf(),
            r.val() == 1,
    {
        Fr::from_u64(1)
    }

    /// Value equality; canonical encodings make this byte equality.
    pub fn equals(&self, other: &Fr) -> (r: bool)
        requires
            self.wf(),
            other.wf(),
        ensures
            r == (self.val() == other.val()),
    {
        let a = self.to_bytes();
        let b = other.to_bytes();
        let r = bytes_eq(a.as_slice(), b.as_slice());
        proof {
            if self.val() == other.val() {
                lemma_le_val_injective(self@, other@);
            }
        }
        r
    }

    /// Whether this element is zero.
    pub fn is_zero(&self) -> (r: bool)
        requires
            self.wf(),
        ensures
            r == (self.val() == 0),
    {
        let z = Fr::zero();
        self.equals(&z)
    }
}

/// Relies on bls12_381::Scalar's field addition, modulo the field order.
#[verifier::external_body]
pub fn fr_add(a: &Fr, b: &Fr) -> (r: Fr)
    requires
        a.wf(),
        b.wf(),
    ensures
        r.wf(),
        r.val() == (a.val() + b.val()) % scalar_modulus(),
{
    let x = Scalar::from_bytes(&a.to_bytes()).unwrap();
    let y = Scalar::from_bytes(&b.to_bytes()).unwrap();
    Fr { bytes: (x + y).to_bytes() }
}

/// Relies on bls12_381::Scalar's field subtraction, modulo the field order.
#[verifier::external_body]
pub fn fr_sub(a: &Fr, b: &Fr) -> (r: Fr)
    requires
        a.wf(),
        b.wf(),
    ensures
        r.wf(),
        r.val() as int == (a.val() + scalar_modulus() - b.val()) % (scalar_modulus() as int),
{
    let x = Scalar::from_bytes(&a.to_bytes()).unwrap();
    let y = Scalar::from_bytes(&b.to_bytes()).unwrap();
    Fr { bytes: (x - y).to_bytes() }
}

/// Relies on bls12_381::Scalar's field multiplication, modulo the field order.
#[verifier::external_body]
pub fn fr_mul(a: &Fr, b: &Fr) -> (r: Fr)
    requires
        a.wf(),
        b.wf(),
    ensures
        r.wf(),
        r.val() == (a.val() * b.val()) % scalar_modulus(),
{
    let x = Scalar::from_bytes(&a.to_bytes()).unwrap();
    let y = Scalar::from_bytes(&b.to_bytes()).unwrap();
    Fr { bytes: (x * y).to_bytes() }
}

/// Relies on bls12_381::Scalar::invert: the multiplicative inverse,
/// defined exactly for the non-zero elements.
#[verifier::external_body]
pub fn fr_invert(a: &Fr) -> (r: Option<Fr>)
    requires
        a.wf(),
    ensures
        r is Some <==> a.val() != 0,
        r matches Some(f) ==> f.wf() && (f.val() * a.val()) % scalar_modulus() == 1,
{
    let x = Scalar::from_bytes(&a.to_bytes()).unwrap();
    let inv = x.invert();
    if bool::from(inv.is_some()) {
        Some(Fr { bytes: inv.unwrap().to_bytes() })
    } else {
        None
    }
}

} // verus!
