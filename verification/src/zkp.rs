//! Selective-disclosure proof core: a proof of possession of a signature
//! with chosen messages revealed, Fiat–Shamir transformed and bound to a
//! per-site linkage tag, an alias index and an optional freshness claim.
//! The wire form is `A' (48) || Abar (48) || e~ (32) || d (32) || c (32) ||
//! linkage_tag (48) || r_count (u32 LE) || responses (32 each)`.
use crate::curve::{
    g1_add, g1_log, g1_mul, g1_sub, g1_valid, g2_add, g2_log, g2_mul_gen, g2_valid, pairing_check,
    G1Elem, G2Elem,
};
use crate::field::{fr_add, fr_invert, fr_mul, scalar_modulus, Fr};
use crate::hashes::{hash_to_scalar, hash_to_scalar_val};
use crate::periwinkle::{get_entropy, get_hardware_secret, EntropyHarvester};
use crate::sig::{
    generate_linkage_tag, linkage_tag_val, parse_generators, pk_generators_ok, pk_h, pk_h_count,
    pk_sign_ok, pk_w, sig_parse_ok, VerifyError,
};
use crate::wire::{extend_bytes, le_val};
use vstd::bytes::{spec_u32_to_le_bytes, spec_u64_to_le_bytes, u32_to_le_bytes, u64_to_le_bytes};
use vstd::prelude::*;

verus! {

broadcast use crate::curve::lemma_g1_elem_len, crate::curve::lemma_g2_elem_len, crate::field::lemma_fr_len;

/// The bytes of an optional field, empty when absent.
pub open spec fn opt_bytes(o: Option<Vec<u8>>) -> Seq<u8> {
    match o {
        Some(v) => v@,
        None => Seq::empty(),
    }
}

/// The byte string the Fiat–Shamir challenge is computed over, in wire
/// order; absent optional fields contribute nothing.
pub open spec fn challenge_input(
    a_prime: Seq<u8>,
    abar: Seq<u8>,
    d: Seq<u8>,
    nonce: Seq<u8>,
    tag: Seq<u8>,
    alias_index: u64,
    fresh: Seq<u8>,
) -> Seq<u8> {
    a_prime + abar + d + nonce + tag + spec_u64_to_le_bytes(alias_index) + fresh
}

/// How many of the first `upto` message positions are hidden, that is,
/// not listed among the revealed indices.
pub open spec fn hidden_count(idxs: Seq<u32>, upto: int) -> int
    decreases upto,
{
    if upto <= 0 {
        0
    } else {
        hidden_count(idxs, upto - 1) + if idxs.contains((upto - 1) as u32) {
            0int
        } else {
            1int
        }
    }
}

pub proof fn lemma_hidden_count_bounds(idxs: Seq<u32>, upto: int)
    requires
        upto >= 0,
    ensures
        0 <= hidden_count(idxs, upto) <= upto,
    decreases upto,
{
    if upto > 0 {
        lemma_hidden_count_bounds(idxs, upto - 1);
    }
}

/// The fixed 244-byte prefix parses: two G1 points, three canonical
/// scalars, and the linkage tag.
pub open spec fn proof_head_ok(p: Seq<u8>) -> bool {
    &&& p.len() >= 244
    &&& g1_valid(p.subrange(0, 48))
    &&& g1_valid(p.subrange(48, 96))
    &&& le_val(p.subrange(96, 128)) < scalar_modulus()
    &&& le_val(p.subrange(128, 160)) < scalar_modulus()
    &&& le_val(p.subrange(160, 192)) < scalar_modulus()
    &&& g1_valid(p.subrange(192, 240))
}

/// The declared number of response scalars.
pub open spec fn proof_r_count(p: Seq<u8>) -> nat {
    vstd::bytes::spec_u32_from_le_bytes(p.subrange(240, 244)) as nat
}

/// The i-th response block.
pub open spec fn proof_response(p: Seq<u8>, i: int) -> Seq<u8> {
    p.subrange(244 + 32 * i, 244 + 32 * (i + 1))
}

/// The proof carries `rc` whole response blocks, each canonical.
pub open spec fn proof_responses_ok(p: Seq<u8>, rc: int) -> bool {
    &&& p.len() >= 244 + 32 * rc
    &&& forall|i: int|
        0 <= i < rc ==> le_val(#[trigger] proof_response(p, i)) < scalar_modulus()
}

/// The recomputed Fiat–Shamir challenge matches the one in the proof.
/// `create_proof` ensures this of its output, and `verify_proof_safe`
/// re-checks exactly this predicate, so an honest proof always passes
/// the challenge comparison when both sides use the same nonce, alias
/// index and freshness claim.
pub open spec fn proof_challenge_ok(p: Seq<u8>, nonce: Seq<u8>, alias_index: u64, fresh: Seq<u8>) -> bool {
    le_val(p.subrange(160, 192)) == hash_to_scalar_val(
        challenge_input(
            p.subrange(0, 48),
            p.subrange(48, 96),
            p.subrange(128, 160),
            nonce,
            p.subrange(192, 240),
            alias_index,
            fresh,
        ),
    )
}

/// `Abar + h0*d`, the base of the right-hand pairing sum; `h0` is skipped
/// when the key carries no generators.
pub open spec fn rhs_base_log(pk: Seq<u8>, abar: Seq<u8>, d_val: nat) -> nat {
    if pk_h_count(pk) >= 1 {
        (g1_log(abar) + (g1_log(pk_h(pk, 0)) * d_val) % scalar_modulus()) % scalar_modulus()
    } else {
        g1_log(abar)
    }
}

/// The right-hand pairing sum after folding the first `n` revealed pairs
/// in input order; a pair whose generator lies beyond the key is skipped.
pub open spec fn rhs_log_prefix(
    pk: Seq<u8>,
    abar: Seq<u8>,
    d_val: nat,
    idxs: Seq<u32>,
    msgs: Seq<Seq<u8>>,
    n: int,
) -> nat
    decreases n,
{
    if n <= 0 {
        rhs_base_log(pk, abar, d_val)
    } else {
        let prev = rhs_log_prefix(pk, abar, d_val, idxs, msgs, n - 1);
        if idxs[n - 1] as int + 1 < pk_h_count(pk) {
            (prev + (g1_log(pk_h(pk, idxs[n - 1] as int + 1)) * hash_to_scalar_val(msgs[n - 1]))
                % scalar_modulus()) % scalar_modulus()
        } else {
            prev
        }
    }
}

/// The pairing equation of proof verification:
/// `e(A', w + g2*e~) == e(Abar + h0*d + sum h_{i+1}*m_i, g2)` over the
/// generator multiples.
pub open spec fn proof_pairing_ok(pk: Seq<u8>, p: Seq<u8>, idxs: Seq<u32>, msgs: Seq<Seq<u8>>) -> bool {
    (g1_log(p.subrange(0, 48)) * ((g2_log(pk_w(pk)) + le_val(p.subrange(96, 128)))
        % scalar_modulus())) % scalar_modulus() == rhs_log_prefix(
        pk,
        p.subrange(48, 96),
        le_val(p.subrange(128, 160)),
        idxs,
        msgs,
        idxs.len() as int,
    )
}

/// What proof verification needs of a public key; the generator count is
/// not checked here, out-of-range positions are skipped instead.
pub open spec fn pk_proof_ok(pk: Seq<u8>) -> bool {
    pk.len() >= 96 && g2_valid(pk_w(pk)) && pk_generators_ok(pk)
}

/// Whether a u32 is listed in a vector of indices.
fn contains_u32(v: &Vec<u32>, x: u32) -> (r: bool)
    ensures
        r == v@.contains(x),
{
    let mut i: usize = 0;
    while i < v.len()
        invariant
            i <= v@.len(),
            forall|j: int| 0 <= j < i ==> v@[j] != x,
        decreases v@.len() - i,
    {
        if v[i] == x {
            return true;
        }
        i = i + 1;
    }
    proof {
        assert(!v@.contains(x));
    }
    false
}

/// Lays the proof out on the wire: the six fixed fields, the response
/// count, then the responses.
fn assemble_proof(
    a_prime: &G1Elem,
    abar: &G1Elem,
    e_tilde: &Fr,
    d: &Fr,
    c: &Fr,
    tag: &G1Elem,
    responses: &Vec<Fr>,
) -> (r: Vec<u8>)
    requires
        responses@.len() <= u32::MAX,
        forall|i: int| 0 <= i < responses@.len() ==> (#[trigger] responses@[i]).wf(),
    ensures
        r@.len() == 244 + 32 * responses@.len(),
        r@.subrange(0, 48) == a_prime@,
        r@.subrange(48, 96) == abar@,
        r@.subrange(96, 128) == e_tilde@,
        r@.subrange(128, 160) == d@,
        r@.subrange(160, 192) == c@,
        r@.subrange(192, 240) == tag@,
        r@.subrange(240, 244) == spec_u32_to_le_bytes(responses@.len() as u32),
        forall|i: int|
            0 <= i < responses@.len() ==> proof_response(r@, i) == (#[trigger] responses@[i])@,
{
    let mut out: Vec<u8> = Vec::new();
    let apb = a_prime.to_bytes();
    extend_bytes(&mut out, apb.as_slice());
    let abb = abar.to_bytes();
    extend_bytes(&mut out, abb.as_slice());
    let etb = e_tilde.to_bytes();
    extend_bytes(&mut out, etb.as_slice());
    let db = d.to_bytes();
    extend_bytes(&mut out, db.as_slice());
    let cb = c.to_bytes();
    extend_bytes(&mut out, cb.as_slice());
    let tb = tag.to_bytes();
    extend_bytes(&mut out, tb.as_slice());
    let rcb = u32_to_le_bytes(responses.len() as u32);
    extend_bytes(&mut out, rcb.as_slice());
    proof {
        assert(out@.len() == 244);
        assert(out@.subrange(0, 48) =~= a_prime@);
        assert(out@.subrange(48, 96) =~= abar@);
        assert(out@.subrange(96, 128) =~= e_tilde@);
        assert(out@.subrange(128, 160) =~= d@);
        assert(out@.subrange(160, 192) =~= c@);
        assert(out@.subrange(192, 240) =~= tag@);
        assert(out@.subrange(240, 244) =~= spec_u32_to_le_bytes(responses@.len() as u32));
    }
    let ghost head = out@;
    let mut i: usize = 0;
    while i < responses.len()
        invariant
            forall|t: int| 0 <= t < responses@.len() ==> (#[trigger] responses@[t]).wf(),
            i <= responses@.len(),
            head.len() == 244,
            out@.len() == 244 + 32 * i,
            out@.subrange(0, 244) == head,
            forall|t: int| 0 <= t < i ==> proof_response(out@, t) == (#[trigger] responses@[t])@,
        decreases responses@.len() - i,
    {
        let ghost before = out@;
        let rb = responses[i].to_bytes();
        extend_bytes(&mut out, rb.as_slice());
        proof {
            assert(out@.subrange(0, 244) =~= before.subrange(0, 244));
            assert forall|t: int| 0 <= t < i implies proof_response(out@, t) == (
            #[trigger] responses@[t])@ by {
                assert(proof_response(before, t) == responses@[t]@);
                assert(proof_response(out@, t) =~= proof_response(before, t));
            }
            assert(proof_response(out@, i as int) =~= responses@[i as int]@);
        }
        i = i + 1;
    }
    proof {
        assert(out@.subrange(0, 48) =~= head.subrange(0, 48));
        assert(out@.subrange(48, 96) =~= head.subrange(48, 96));
        assert(out@.subrange(96, 128) =~= head.subrange(96, 128));
        assert(out@.subrange(128, 160) =~= head.subrange(128, 160));
        assert(out@.subrange(160, 192) =~= head.subrange(160, 192));
        assert(out@.subrange(192, 240) =~= head.subrange(192, 240));
        assert(out@.subrange(240, 244) =~= head.subrange(240, 244));
    }
    out
}

/// Creates a selective-disclosure proof for a signature: blinds `A` with
/// fresh randomness, binds the linkage tag, the alias index and the
/// optional nonce and freshness claim into the Fiat–Shamir challenge, and
/// answers for every hidden message. The holder secret is derived from
/// the blinding factor when one is given, else from the entropy service's
/// hardware secret. `CryptoError` can only arise from a zero randomness
/// draw.
#[verifier::rlimit(100)]
pub fn create_proof(
    public_key: &[u8],
    signature: &[u8],
    messages: &Vec<Vec<u8>>,
    revealed_indices: &Vec<u32>,
    nonce: &Option<Vec<u8>>,
    site_id: &[u8],
    alias_index: u64,
    blinding_factor: &Option<Vec<u8>>,
    freshness_claim: &Option<Vec<u8>>,
    entropy: &mut EntropyHarvester,
) -> (r: Result<Vec<u8>, VerifyError>)
    requires
        old(entropy).wf(),
        messages@.len() <= u32::MAX,
    ensures
        final(entropy).wf(),
        r == Err::<Vec<u8>, VerifyError>(VerifyError::InvalidKey) <==> !pk_sign_ok(
            public_key@,
            messages@.len() as int,
        ),
        pk_sign_ok(public_key@, messages@.len() as int) ==> (r == Err::<Vec<u8>, VerifyError>(
            VerifyError::InvalidSignature,
        ) <==> !sig_parse_ok(signature@)),
        r matches Ok(p) ==> {
            &&& p@.len() == 244 + 32 * hidden_count(revealed_indices@, messages@.len() as int)
            &&& proof_head_ok(p@)
            &&& proof_r_count(p@) == hidden_count(revealed_indices@, messages@.len() as int)
            &&& proof_responses_ok(
                p@,
                hidden_count(revealed_indices@, messages@.len() as int),
            )
            &&& proof_challenge_ok(p@, opt_bytes(*nonce), alias_index, opt_bytes(*freshness_claim))
            &&& (blinding_factor matches Some(bf) ==> p@.subrange(192, 240)
                == crate::curve::g1_enc(
                linkage_tag_val(hash_to_scalar_val(bf@), site_id@),
            ))
            &&& exists|r1v: nat, r2v: nat|
                {
                    &&& r1v < scalar_modulus()
                    &&& r2v < scalar_modulus()
                    &&& r1v != 0
                    &&& g1_log(p@.subrange(0, 48)) == #[trigger] ((g1_log(
                        signature@.subrange(0, 48),
                    ) * r1v) % scalar_modulus())
                    &&& g1_log(p@.subrange(48, 96)) as int == (g1_log(p@.subrange(0, 48))
                        + scalar_modulus() - (#[trigger] ((g1_log(pk_h(public_key@, 0)) * r2v)
                        % scalar_modulus()))) % (scalar_modulus() as int)
                    &&& le_val(p@.subrange(128, 160)) == ((le_val(signature@.subrange(80, 112))
                        * r1v) % scalar_modulus() + r2v) % scalar_modulus()
                    &&& (le_val(p@.subrange(96, 128)) * r1v) % scalar_modulus() == le_val(
                        signature@.subrange(48, 80),
                    )
                }
        },
{
    let h = match parse_generators(public_key) {
        Some(h) => h,
        None => { return Err(VerifyError::InvalidKey) },
    };
    if h.len() <= messages.len() {
        return Err(VerifyError::InvalidKey);
    }

    if signature.len() != 112 {
        return Err(VerifyError::InvalidSignature);
    }
    let a = match G1Elem::from_compressed(vstd::slice::slice_subrange(signature, 0, 48)) {
        Some(p) => p,
        None => { return Err(VerifyError::InvalidSignature) },
    };
    let e = match Fr::from_bytes(vstd::slice::slice_subrange(signature, 48, 80)) {
        Some(v) => v,
        None => { return Err(VerifyError::InvalidSignature) },
    };
    let s = match Fr::from_bytes(vstd::slice::slice_subrange(signature, 80, 112)) {
        Some(v) => v,
        None => { return Err(VerifyError::InvalidSignature) },
    };

    let sk_holder = match blinding_factor {
        Some(bf) => hash_to_scalar(bf.as_slice()),
        None => {
            let hw = get_hardware_secret(entropy, "LinkageTag".as_bytes());
            hash_to_scalar(hw.as_slice())
        },
    };
    let linkage_tag = generate_linkage_tag(&sk_holder, site_id);

    let ent_r1 = get_entropy(entropy);
    let r1 = Fr::from_bytes_wide(ent_r1.as_slice());
    let ent_r2 = get_entropy(entropy);
    let mut r2 = Fr::from_bytes_wide(ent_r2.as_slice());
    if let Some(bf) = blinding_factor {
        let bf_scalar = hash_to_scalar(bf.as_slice());
        r2 = fr_add(&r2, &bf_scalar);
    }

    let a_prime = g1_mul(&a, &r1);
    let h0r2 = g1_mul(&h[0], &r2);
    let abar = g1_sub(&a_prime, &h0r2);
    let sr1 = fr_mul(&s, &r1);
    let d = fr_add(&sr1, &r2);
    let r1_inv = match fr_invert(&r1) {
        Some(v) => v,
        None => { return Err(VerifyError::CryptoError) },
    };
    let e_tilde = fr_mul(&e, &r1_inv);

    let mut hidden_randomness: Vec<Fr> = Vec::new();
    let mut i: usize = 0;
    while i < messages.len()
        invariant
            old(entropy).wf(),
            entropy.wf(),
            messages@.len() <= u32::MAX,
            i <= messages@.len(),
            hidden_randomness@.len() == hidden_count(revealed_indices@, i as int),
            forall|t: int|
                0 <= t < hidden_randomness@.len() ==> (#[trigger] hidden_randomness@[t]).wf(),
        decreases messages@.len() - i,
    {
        proof {
            lemma_hidden_count_bounds(revealed_indices@, i as int);
        }
        if !contains_u32(revealed_indices, i as u32) {
            let ent = get_entropy(entropy);
            let r_m = Fr::from_bytes_wide(ent.as_slice());
            hidden_randomness.push(r_m);
        }
        i = i + 1;
    }

    let mut challenge_data: Vec<u8> = Vec::new();
    let apb = a_prime.to_bytes();
    extend_bytes(&mut challenge_data, apb.as_slice());
    let abb = abar.to_bytes();
    extend_bytes(&mut challenge_data, abb.as_slice());
    let db = d.to_bytes();
    extend_bytes(&mut challenge_data, db.as_slice());
    if let Some(n) = nonce {
        extend_bytes(&mut challenge_data, n.as_slice());
    }
    let tb = linkage_tag.to_bytes();
    extend_bytes(&mut challenge_data, tb.as_slice());
    let alb = u64_to_le_bytes(alias_index);
    extend_bytes(&mut challenge_data, alb.as_slice());
    if let Some(fc) = freshness_claim {
        extend_bytes(&mut challenge_data, fc.as_slice());
    }
    proof {
        assert(challenge_data@ =~= challenge_input(
            a_prime@,
            abar@,
            d@,
            opt_bytes(*nonce),
            linkage_tag@,
            alias_index,
            opt_bytes(*freshness_claim),
        ));
    }
    let challenge = hash_to_scalar(challenge_data.as_slice());

    let mut responses: Vec<Fr> = Vec::new();
    let mut hidden_idx: usize = 0;
    let mut j: usize = 0;
    while j < messages.len()
        invariant
            messages@.len() <= u32::MAX,
            j <= messages@.len(),
            challenge.wf(),
            hidden_randomness@.len() == hidden_count(
                revealed_indices@,
                messages@.len() as int,
            ),
            forall|t: int|
                0 <= t < hidden_randomness@.len() ==> (#[trigger] hidden_randomness@[t]).wf(),
            hidden_idx == hidden_count(revealed_indices@, j as int),
            hidden_idx <= hidden_randomness@.len(),
            responses@.len() == hidden_idx,
            forall|t: int| 0 <= t < responses@.len() ==> (#[trigger] responses@[t]).wf(),
        decreases messages@.len() - j,
    {
        proof {
            lemma_hidden_count_bounds(revealed_indices@, j as int);
            lemma_hidden_count_monotone(revealed_indices@, j as int + 1, messages@.len() as int);
        }
        if !contains_u32(revealed_indices, j as u32) {
            proof {
                assert(hidden_count(revealed_indices@, j as int + 1) == hidden_idx + 1);
                assert(hidden_idx < hidden_randomness@.len());
            }
            let m = hash_to_scalar(messages[j].as_slice());
            let cm = fr_mul(&challenge, &m);
            let z = fr_add(&hidden_randomness[hidden_idx], &cm);
            responses.push(z);
            hidden_idx = hidden_idx + 1;
        }
        j = j + 1;
    }

    proof {
        lemma_hidden_count_bounds(revealed_indices@, messages@.len() as int);
    }
    let out = assemble_proof(&a_prime, &abar, &e_tilde, &d, &challenge, &linkage_tag, &responses);
    proof {
        assert(out@.subrange(160, 192) == challenge@);
        assert(proof_challenge_ok(
            out@,
            opt_bytes(*nonce),
            alias_index,
            opt_bytes(*freshness_claim),
        ));
        vstd::bytes::lemma_auto_spec_u32_to_from_le_bytes();
        lemma_hidden_count_bounds(revealed_indices@, messages@.len() as int);
        assert(responses@.len() <= u32::MAX);
        let rc32 = responses@.len() as u32;
        assert(out@.subrange(240, 244) == spec_u32_to_le_bytes(rc32));
        assert(spec_u32_to_le_bytes(rc32).len() == 4);
        assert(vstd::bytes::spec_u32_from_le_bytes(spec_u32_to_le_bytes(rc32)) == rc32);
        assert(vstd::bytes::spec_u32_from_le_bytes(out@.subrange(240, 244)) == rc32);
        assert(proof_r_count(out@) == responses@.len());
        assert forall|t: int| 0 <= t < responses@.len() implies le_val(
            #[trigger] proof_response(out@, t),
        ) < scalar_modulus() by {
            assert(proof_response(out@, t) == responses@[t]@);
        }
        // The blinded components stand in the stated relation to the
        // signature, witnessed by the randomness this call drew.
        let q = scalar_modulus() as int;
        let r1v = r1.val();
        let r2v = r2.val();
        let e_val = le_val(signature@.subrange(48, 80)) as int;
        let iv = r1_inv.val() as int;
        assert(g1_log(out@.subrange(0, 48)) == (g1_log(signature@.subrange(0, 48)) * r1v)
            % scalar_modulus());
        assert(g1_log(out@.subrange(48, 96)) as int == (g1_log(out@.subrange(0, 48))
            + scalar_modulus() - (g1_log(pk_h(public_key@, 0)) * r2v) % scalar_modulus()) % q);
        assert(le_val(out@.subrange(128, 160)) == ((le_val(signature@.subrange(80, 112)) * r1v)
            % scalar_modulus() + r2v) % scalar_modulus());
        assert((le_val(out@.subrange(96, 128)) * (r1v as int)) % q == e_val) by {
            assert(le_val(out@.subrange(96, 128)) as int == (e_val * iv) % q);
            vstd::arithmetic::div_mod::lemma_mul_mod_noop_left(e_val * iv, r1v as int, q);
            vstd::arithmetic::mul::lemma_mul_is_associative(e_val, iv, r1v as int);
            vstd::arithmetic::div_mod::lemma_mul_mod_noop_right(e_val, iv * (r1v as int), q);
            vstd::arithmetic::mul::lemma_mul_basics(e_val);
            vstd::arithmetic::div_mod::lemma_small_mod(e_val as nat, scalar_modulus());
        }
    }
    Ok(out)
}

/// Hidden counts grow with the prefix length.
pub proof fn lemma_hidden_count_monotone(idxs: Seq<u32>, a: int, b: int)
    requires
        0 <= a <= b,
    ensures
        hidden_count(idxs, a) <= hidden_count(idxs, b),
    decreases b - a,
{
    if a < b {
        lemma_hidden_count_monotone(idxs, a, b - 1);
    }
}

/// Verifies a selective-disclosure proof: bounds the response count
/// before anything is allocated for it, re-computes the Fiat–Shamir
/// challenge, and decides the pairing equation over the revealed
/// messages. A challenge mismatch or failed equation is `Ok(false)`.
pub fn verify_proof_safe(
    public_key: &[u8],
    proof: &[u8],
    total_message_count: u64,
    revealed_indices: &Vec<u32>,
    revealed_messages_content: &Vec<Vec<u8>>,
    nonce: &[u8],
    alias_index: u64,
    freshness_claim: &Option<Vec<u8>>,
) -> (r: Result<bool, VerifyError>)
    ensures
        revealed_indices@.len() != revealed_messages_content@.len() ==> r == Err::<
            bool,
            VerifyError,
        >(VerifyError::InvalidSignature),
        revealed_indices@.len() == revealed_messages_content@.len() ==> (r == Err::<
            bool,
            VerifyError,
        >(VerifyError::InvalidKey) <==> !pk_proof_ok(public_key@)),
        revealed_indices@.len() == revealed_messages_content@.len() && pk_proof_ok(public_key@)
            ==> (r == Err::<bool, VerifyError>(VerifyError::InvalidSignature) <==> !(proof@.len()
            >= 244 && proof_r_count(proof@) <= total_message_count + 10 && proof_head_ok(proof@)
            && proof_responses_ok(proof@, proof_r_count(proof@) as int))),
        revealed_indices@.len() == revealed_messages_content@.len() && pk_proof_ok(public_key@)
            && proof@.len() >= 244 && proof_r_count(proof@) <= total_message_count + 10
            && proof_head_ok(proof@) && proof_responses_ok(proof@, proof_r_count(proof@) as int)
            ==> r == Ok::<bool, VerifyError>(
            proof_challenge_ok(proof@, nonce@, alias_index, opt_bytes(*freshness_claim))
                && proof_pairing_ok(
                public_key@,
                proof@,
                revealed_indices@,
                revealed_messages_content.deep_view(),
            ),
        ),
{
    if revealed_indices.len() != revealed_messages_content.len() {
        return Err(VerifyError::InvalidSignature);
    }

    if public_key.len() < 96 {
        return Err(VerifyError::InvalidKey);
    }
    let w = match G2Elem::from_compressed(vstd::slice::slice_subrange(public_key, 0, 96)) {
        Some(p) => p,
        None => { return Err(VerifyError::InvalidKey) },
    };
    let h = match parse_generators(public_key) {
        Some(h) => h,
        None => { return Err(VerifyError::InvalidKey) },
    };

    if proof.len() < 244 {
        return Err(VerifyError::InvalidSignature);
    }
    let rcb = vstd::slice::slice_subrange(proof, 240, 244);
    let response_count = vstd::bytes::u32_from_le_bytes(rcb);
    let bound: u64 = if total_message_count > u64::MAX - 10 {
        u64::MAX
    } else {
        total_message_count + 10
    };
    if (response_count as u64) > bound {
        return Err(VerifyError::InvalidSignature);
    }

    let a_prime = match G1Elem::from_compressed(vstd::slice::slice_subrange(proof, 0, 48)) {
        Some(p) => p,
        None => { return Err(VerifyError::InvalidSignature) },
    };
    let abar = match G1Elem::from_compressed(vstd::slice::slice_subrange(proof, 48, 96)) {
        Some(p) => p,
        None => { return Err(VerifyError::InvalidSignature) },
    };
    let e_tilde = match Fr::from_bytes(vstd::slice::slice_subrange(proof, 96, 128)) {
        Some(v) => v,
        None => { return Err(VerifyError::InvalidSignature) },
    };
    let d = match Fr::from_bytes(vstd::slice::slice_subrange(proof, 128, 160)) {
        Some(v) => v,
        None => { return Err(VerifyError::InvalidSignature) },
    };
    let challenge = match Fr::from_bytes(vstd::slice::slice_subrange(proof, 160, 192)) {
        Some(v) => v,
        None => { return Err(VerifyError::InvalidSignature) },
    };
    let linkage_tag = match G1Elem::from_compressed(vstd::slice::slice_subrange(proof, 192, 240)) {
        Some(p) => p,
        None => { return Err(VerifyError::InvalidSignature) },
    };

    let mut i: usize = 0;
    while i < response_count as usize
        invariant
            revealed_indices@.len() == revealed_messages_content@.len(),
            pk_proof_ok(public_key@),
            proof_head_ok(proof@),
            proof_r_count(proof@) == response_count as nat,
            response_count as nat <= total_message_count + 10,
            proof@.len() >= 244,
            proof@.len() <= usize::MAX,
            i <= response_count as usize,
            244 + 32 * i <= proof@.len(),
            forall|t: int|
                0 <= t < i ==> le_val(#[trigger] proof_response(proof@, t)) < scalar_modulus(),
        decreases response_count as int - i,
    {
        if (proof.len() - (244 + 32 * i)) < 32 {
            proof {
                vstd::arithmetic::mul::lemma_mul_inequality(
                    i as int + 1,
                    response_count as int,
                    32,
                );
                assert(proof@.len() < 244 + 32 * (response_count as int));
            }
            return Err(VerifyError::InvalidSignature);
        }
        let rb = vstd::slice::slice_subrange(proof, 244 + 32 * i, 244 + 32 * i + 32);
        proof {
            assert(rb@ == proof_response(proof@, i as int));
        }
        match Fr::from_bytes(rb) {
            Some(_) => {},
            None => {
                proof {
                    assert(le_val(proof_response(proof@, i as int)) >= scalar_modulus());
                }
                return Err(VerifyError::InvalidSignature)
            },
        }
        i = i + 1;
    }
    proof {
        assert(proof@.len() >= 244 + 32 * (response_count as int));
    }

    let mut challenge_data: Vec<u8> = Vec::new();
    let apb = a_prime.to_bytes();
    extend_bytes(&mut challenge_data, apb.as_slice());
    let abb = abar.to_bytes();
    extend_bytes(&mut challenge_data, abb.as_slice());
    let db = d.to_bytes();
    extend_bytes(&mut challenge_data, db.as_slice());
    if nonce.len() > 0 {
        extend_bytes(&mut challenge_data, nonce);
    }
    let tb = linkage_tag.to_bytes();
    extend_bytes(&mut challenge_data, tb.as_slice());
    let alb = u64_to_le_bytes(alias_index);
    extend_bytes(&mut challenge_data, alb.as_slice());
    if let Some(fc) = freshness_claim {
        extend_bytes(&mut challenge_data, fc.as_slice());
    }
    proof {
        assert(challenge_data@ =~= challenge_input(
            proof@.subrange(0, 48),
            proof@.subrange(48, 96),
            proof@.subrange(128, 160),
            nonce@,
            proof@.subrange(192, 240),
            alias_index,
            opt_bytes(*freshness_claim),
        ));
    }
    let challenge_check = hash_to_scalar(challenge_data.as_slice());
    if !challenge.equals(&challenge_check) {
        return Ok(false);
    }

    let mut rhs_sum = abar;
    proof {
        assert(abar.log() == g1_log(proof@.subrange(48, 96)));
        assert(d.val() == le_val(proof@.subrange(128, 160)));
    }
    if h.len() > 0 {
        proof {
            assert(h@[0]@ == pk_h(public_key@, 0));
        }
        let h0d = g1_mul(&h[0], &d);
        rhs_sum = g1_add(&abar, &h0d);
    }
    proof {
        assert(rhs_sum.log() == rhs_base_log(
            public_key@,
            proof@.subrange(48, 96),
            le_val(proof@.subrange(128, 160)),
        ));
    }
    let ghost idxs = revealed_indices@;
    let ghost rmsgs = revealed_messages_content.deep_view();
    let mut t: usize = 0;
    while t < revealed_indices.len()
        invariant
            revealed_indices@ == idxs,
            rmsgs == revealed_messages_content.deep_view(),
            idxs.len() == rmsgs.len(),
            h@.len() == pk_h_count(public_key@),
            forall|k: int|
                0 <= k < h@.len() ==> (#[trigger] h@[k]).wf() && h@[k]@ == pk_h(public_key@, k),
            proof@.len() >= 244,
            d.wf(),
            d.val() == le_val(proof@.subrange(128, 160)),
            t <= idxs.len(),
            rhs_sum.wf(),
            rhs_sum.log() == rhs_log_prefix(
                public_key@,
                proof@.subrange(48, 96),
                le_val(proof@.subrange(128, 160)),
                idxs,
                rmsgs,
                t as int,
            ),
        decreases idxs.len() - t,
    {
        let idx = revealed_indices[t] as usize;
        if (idx as u64) + 1 < h.len() as u64 {
            let m = hash_to_scalar(revealed_messages_content[t].as_slice());
            proof {
                assert(rmsgs[t as int] == revealed_messages_content@[t as int]@);
            }
            let hi = idx + 1;
            let hm = g1_mul(&h[hi], &m);
            rhs_sum = g1_add(&rhs_sum, &hm);
        }
        t = t + 1;
    }

    let ge = g2_mul_gen(&e_tilde);
    let w_g2e = g2_add(&w, &ge);
    let one = Fr::one();
    let g2gen = g2_mul_gen(&one);
    let ok = pairing_check(&a_prime, &w_g2e, &rhs_sum, &g2gen);
    proof {
        vstd::arithmetic::div_mod::lemma_small_mod(rhs_sum.log(), scalar_modulus());
        assert(w@ == pk_w(public_key@));
        assert(a_prime@ == proof@.subrange(0, 48));
        assert(g2gen.log() == 1);
        vstd::arithmetic::mul::lemma_mul_basics(rhs_sum.log() as int);
        assert((rhs_sum.log() * g2gen.log()) % scalar_modulus() == rhs_sum.log());
        assert(w_g2e.log() == (g2_log(pk_w(public_key@)) + le_val(proof@.subrange(96, 128)))
            % scalar_modulus());
        assert(rhs_sum.log() == rhs_log_prefix(
            public_key@,
            proof@.subrange(48, 96),
            le_val(proof@.subrange(128, 160)),
            idxs,
            rmsgs,
            idxs.len() as int,
        ));
        assert(ok == proof_pairing_ok(public_key@, proof@, idxs, rmsgs));
    }
    Ok(ok)
}

} // verus!
