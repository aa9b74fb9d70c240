//! Delegation tokens: a fixed-schema token is serialized to 145 canonical
//! bytes, hashed to a single message scalar, and signed with the two-
//! generator form of the signature core.
use crate::curve::{g1_add, g1_log, g1_mul, g1_mul_gen, g1_valid, g2_log, g2_valid, G1Elem, G2Elem};
use crate::field::{fr_add, fr_invert, scalar_modulus, Fr};
use crate::hashes::{hash_to_scalar, sha256, sha256_of};
use crate::sig::{
    b_log_prefix, bbs_verify_ok, pk_h, pk_w, sig_parse_ok, sign_ok, VerifyError,
};
use crate::wire::{extend_bytes, le_val};
use vstd::bytes::{spec_u32_to_le_bytes, spec_u64_to_le_bytes, u32_to_le_bytes, u64_to_le_bytes};
use vstd::prelude::*;

verus! {

broadcast use crate::curve::lemma_g1_elem_len, crate::curve::lemma_g2_elem_len, crate::field::lemma_fr_len;

/// A delegation of limited authority from an anchor to a mobile key.
#[derive(Debug)]
pub struct DelegationToken {
    pub anchor_id: Vec<u8>,
    pub mobile_key: Vec<u8>,
    pub expiration: u64,
    pub tier: u8,
    pub scope_mask: u32,
    pub max_passages: u32,
}

/// The serialized token: anchor || mobile key || expiration (u64 LE) ||
/// tier || scope mask (u32 LE) || max passages (u32 LE).
pub open spec fn token_bytes(t: &DelegationToken) -> Seq<u8> {
    t.anchor_id@ + t.mobile_key@ + spec_u64_to_le_bytes(t.expiration) + seq![t.tier]
        + spec_u32_to_le_bytes(t.scope_mask) + spec_u32_to_le_bytes(t.max_passages)
}

/// The canonical token: 32-byte anchor and 96-byte mobile key, 145 bytes
/// serialized in all.
pub open spec fn token_wf(t: &DelegationToken) -> bool {
    t.anchor_id@.len() == 32 && t.mobile_key@.len() == 96
}

/// The single BBS+ message list a token is signed under: the SHA-256 of
/// its serialized bytes, hashed to a scalar by the signature core.
pub open spec fn token_msgs(t: &DelegationToken) -> Seq<Seq<u8>> {
    seq![sha256_of(token_bytes(t))]
}

/// What delegation needs of a public key: `w`, `h0` and `h1` parse; any
/// further generators are ignored.
pub open spec fn del_pk_ok(pk: Seq<u8>) -> bool {
    pk.len() >= 192 && g2_valid(pk_w(pk)) && g1_valid(pk_h(pk, 0)) && g1_valid(pk_h(pk, 1))
}

impl DelegationToken {
    /// Serializes the token in its canonical field order.
    pub fn to_bytes(&self) -> (r: Vec<u8>)
        ensures
            r@ == token_bytes(self),
            token_wf(self) ==> r@.len() == 145,
    {
        let mut bytes: Vec<u8> = Vec::new();
        extend_bytes(&mut bytes, self.anchor_id.as_slice());
        extend_bytes(&mut bytes, self.mobile_key.as_slice());
        let eb = u64_to_le_bytes(self.expiration);
        extend_bytes(&mut bytes, eb.as_slice());
        bytes.push(self.tier);
        let sb = u32_to_le_bytes(self.scope_mask);
        extend_bytes(&mut bytes, sb.as_slice());
        let mb = u32_to_le_bytes(self.max_passages);
        extend_bytes(&mut bytes, mb.as_slice());
        proof {
            vstd::bytes::lemma_auto_spec_u64_to_from_le_bytes();
            vstd::bytes::lemma_auto_spec_u32_to_from_le_bytes();
            assert(bytes@ =~= token_bytes(self));
        }
        bytes
    }
}

/// Signs a delegation token under the anchor's secret key: the token
/// bytes are hashed to one message scalar and signed with generators
/// `h0`, `h1`. Rejects malformed keys and non-canonical tokens; a drawn
/// `e` colliding with `-sk` surfaces as `CryptoError`.
pub fn sign_delegation(sk_bytes: &[u8], pk_bytes: &[u8], token: &DelegationToken) -> (r: Result<
    Vec<u8>,
    VerifyError,
>)
    ensures
        r == Err::<Vec<u8>, VerifyError>(VerifyError::InvalidKey) <==> (sk_bytes@.len() != 32
            || le_val(sk_bytes@) >= scalar_modulus() || pk_bytes@.len() < 192 || !g1_valid(
            pk_h(pk_bytes@, 0),
        ) || !g1_valid(pk_h(pk_bytes@, 1)) || !token_wf(token)),
        r is Err ==> (r == Err::<Vec<u8>, VerifyError>(VerifyError::InvalidKey) || r == Err::<
            Vec<u8>,
            VerifyError,
        >(VerifyError::CryptoError)),
        r matches Ok(sig) ==> sign_ok(pk_bytes@, le_val(sk_bytes@), token_msgs(token), sig@),
{
    if sk_bytes.len() != 32 {
        return Err(VerifyError::InvalidKey);
    }
    let sk = match Fr::from_bytes(sk_bytes) {
        Some(s) => s,
        None => { return Err(VerifyError::InvalidKey) },
    };
    if pk_bytes.len() < 192 {
        return Err(VerifyError::InvalidKey);
    }
    let h0 = match G1Elem::from_compressed(vstd::slice::slice_subrange(pk_bytes, 96, 144)) {
        Some(p) => p,
        None => { return Err(VerifyError::InvalidKey) },
    };
    let h1 = match G1Elem::from_compressed(vstd::slice::slice_subrange(pk_bytes, 144, 192)) {
        Some(p) => p,
        None => { return Err(VerifyError::InvalidKey) },
    };
    if token.anchor_id.len() != 32 || token.mobile_key.len() != 96 {
        return Err(VerifyError::InvalidKey);
    }

    let tb = token.to_bytes();
    let hs = sha256(tb.as_slice());
    let m = hash_to_scalar(hs.as_slice());

    let e = Fr::random();
    let s = Fr::random();

    let one = Fr::one();
    let g1 = g1_mul_gen(&one);
    let h0s = g1_mul(&h0, &s);
    let b0 = g1_add(&g1, &h0s);
    let h1m = g1_mul(&h1, &m);
    let b = g1_add(&b0, &h1m);
    proof {
        assert(h0@ == pk_h(pk_bytes@, 0));
        assert(h1@ == pk_h(pk_bytes@, 1));
        assert(token_msgs(token)[0] == sha256_of(token_bytes(token)));
        assert(b0.log() == b_log_prefix(pk_bytes@, s.val(), token_msgs(token), 0));
        assert(b.log() == b_log_prefix(pk_bytes@, s.val(), token_msgs(token), 1));
    }

    let sk_e = fr_add(&sk, &e);
    let inv = match fr_invert(&sk_e) {
        Some(v) => v,
        None => { return Err(VerifyError::CryptoError) },
    };
    let a = g1_mul(&b, &inv);

    let mut sig: Vec<u8> = Vec::new();
    let ab = a.to_bytes();
    extend_bytes(&mut sig, ab.as_slice());
    let eb = e.to_bytes();
    extend_bytes(&mut sig, eb.as_slice());
    let sb = s.to_bytes();
    extend_bytes(&mut sig, sb.as_slice());
    proof {
        assert(sig@.subrange(0, 48) =~= a@);
        assert(sig@.subrange(48, 80) =~= e@);
        assert(sig@.subrange(80, 112) =~= s@);
        let x = (sk.val() + e.val()) % scalar_modulus();
        assert((inv.val() * x) % scalar_modulus() == 1 && g1_log(sig@.subrange(0, 48)) == (
        crate::sig::bbs_b_log(pk_bytes@, s.val(), token_msgs(token)) * inv.val())
            % scalar_modulus());
    }
    Ok(sig)
}

/// Verifies a delegation-token signature against the anchor public key:
/// the token is re-serialized, hashed to its message scalar, and the
/// signature equation is decided. A cryptographic mismatch is `Ok(false)`.
pub fn verify_delegation_signature(
    pk_bytes: &[u8],
    token: &DelegationToken,
    sig_bytes: &[u8],
) -> (r: Result<bool, VerifyError>)
    ensures
        r == Err::<bool, VerifyError>(VerifyError::InvalidSignature) <==> !sig_parse_ok(
            sig_bytes@,
        ),
        sig_parse_ok(sig_bytes@) ==> (r == Err::<bool, VerifyError>(VerifyError::InvalidKey) <==> !(
        del_pk_ok(pk_bytes@) && token_wf(token))),
        sig_parse_ok(sig_bytes@) && del_pk_ok(pk_bytes@) && token_wf(token) ==> r == Ok::<
            bool,
            VerifyError,
        >(
            bbs_verify_ok(
                pk_bytes@,
                sig_bytes@.subrange(0, 48),
                le_val(sig_bytes@.subrange(48, 80)),
                le_val(sig_bytes@.subrange(80, 112)),
                token_msgs(token),
            ),
        ),
{
    if sig_bytes.len() != 112 {
        return Err(VerifyError::InvalidSignature);
    }
    let a = match G1Elem::from_compressed(vstd::slice::slice_subrange(sig_bytes, 0, 48)) {
        Some(p) => p,
        None => { return Err(VerifyError::InvalidSignature) },
    };
    let e = match Fr::from_bytes(vstd::slice::slice_subrange(sig_bytes, 48, 80)) {
        Some(v) => v,
        None => { return Err(VerifyError::InvalidSignature) },
    };
    let s = match Fr::from_bytes(vstd::slice::slice_subrange(sig_bytes, 80, 112)) {
        Some(v) => v,
        None => { return Err(VerifyError::InvalidSignature) },
    };

    if pk_bytes.len() < 192 {
        return Err(VerifyError::InvalidKey);
    }
    let w = match G2Elem::from_compressed(vstd::slice::slice_subrange(pk_bytes, 0, 96)) {
        Some(p) => p,
        None => { return Err(VerifyError::InvalidKey) },
    };
    let h0 = match G1Elem::from_compressed(vstd::slice::slice_subrange(pk_bytes, 96, 144)) {
        Some(p) => p,
        None => { return Err(VerifyError::InvalidKey) },
    };
    let h1 = match G1Elem::from_compressed(vstd::slice::slice_subrange(pk_bytes, 144, 192)) {
        Some(p) => p,
        None => { return Err(VerifyError::InvalidKey) },
    };
    if token.anchor_id.len() != 32 || token.mobile_key.len() != 96 {
        return Err(VerifyError::InvalidKey);
    }

    let tb = token.to_bytes();
    let hs = sha256(tb.as_slice());
    let m = hash_to_scalar(hs.as_slice());

    let one = Fr::one();
    let g1 = g1_mul_gen(&one);
    let h0s = g1_mul(&h0, &s);
    let b0 = g1_add(&g1, &h0s);
    let h1m = g1_mul(&h1, &m);
    let b = g1_add(&b0, &h1m);

    let ge = crate::curve::g2_mul_gen(&e);
    let w_g2e = crate::curve::g2_add(&w, &ge);
    let g2gen = crate::curve::g2_mul_gen(&one);
    let ok = crate::curve::pairing_check(&a, &w_g2e, &b, &g2gen);
    proof {
        assert(h0@ == pk_h(pk_bytes@, 0));
        assert(h1@ == pk_h(pk_bytes@, 1));
        assert(token_msgs(token)[0] == sha256_of(token_bytes(token)));
        assert(b0.log() == b_log_prefix(pk_bytes@, s.val(), token_msgs(token), 0));
        assert(b.log() == b_log_prefix(pk_bytes@, s.val(), token_msgs(token), 1));
        assert(token_msgs(token).len() == 1);
        assert(b.log() == crate::sig::bbs_b_log(pk_bytes@, s.val(), token_msgs(token)));
        vstd::arithmetic::div_mod::lemma_small_mod(b.log(), scalar_modulus());
        assert(w@ == pk_w(pk_bytes@));
        assert(e.val() == le_val(sig_bytes@.subrange(48, 80)));
        assert(s.val() == le_val(sig_bytes@.subrange(80, 112)));
        assert(a@ == sig_bytes@.subrange(0, 48));
        let q = scalar_modulus();
        let e_val = le_val(sig_bytes@.subrange(48, 80));
        let s_val = le_val(sig_bytes@.subrange(80, 112));
        assert(ok == ((a.log() * w_g2e.log()) % q == (b.log() * g2gen.log()) % q));
        assert(g2gen.log() == 1);
        vstd::arithmetic::mul::lemma_mul_basics(b.log() as int);
        assert((b.log() * g2gen.log()) % q == b.log());
        assert(w_g2e.log() == (g2_log(pk_w(pk_bytes@)) + e_val) % q);
        assert(a.log() == g1_log(sig_bytes@.subrange(0, 48)));
        assert(b.log() == crate::sig::bbs_b_log(pk_bytes@, s_val, token_msgs(token)));
        assert(ok == bbs_verify_ok(
            pk_bytes@,
            sig_bytes@.subrange(0, 48),
            le_val(sig_bytes@.subrange(48, 80)),
            le_val(sig_bytes@.subrange(80, 112)),
            token_msgs(token),
        ));
    }
    Ok(ok)
}

} // verus!
