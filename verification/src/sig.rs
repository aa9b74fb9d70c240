//! BBS+-style signature core: public-key parsing, signing, verification,
//! and the per-site linkage tag. A public key is `w || h0 || h1 || ...`
//! with `w` a G2 point and each generator `hi` a G1 point; a signature is
//! `A (48) || e (32) || s (32)`.
use crate::curve::{
    g1_add, g1_enc, g1_log, g1_mul, g1_mul_gen, g1_valid, g2_add, g2_log, g2_mul_gen, g2_valid,
    pairing_check, G1Elem, G2Elem,
};
use crate::field::{fr_add, fr_invert, scalar_modulus, Fr};
use crate::hashes::{hash_to_scalar, hash_to_scalar_val, sha256, sha256_of};
use crate::periwinkle::{get_entropy, EntropyHarvester};
use crate::wire::{extend_bytes, le_val};
use vstd::prelude::*;

verus! {

broadcast use crate::curve::lemma_g1_elem_len, crate::curve::lemma_g2_elem_len, crate::field::lemma_fr_len;

/// The error surface of the cryptographic core.
#[derive(Clone, Copy, Debug, PartialEq, Eq, Structural)]
pub enum VerifyError {
    /// A key failed to parse: wrong length, a non-canonical scalar, an
    /// invalid point encoding, or too few generators for the messages.
    InvalidKey,
    /// A signature or proof failed to parse, or its guard was exceeded.
    InvalidSignature,
    /// An internal failure: a scalar that had to be invertible was zero.
    CryptoError,
}

/// The G2 part `w` of a serialized public key.
pub open spec fn pk_w(pk: Seq<u8>) -> Seq<u8> {
    pk.subrange(0, 96)
}

/// How many whole 48-byte generator blocks the key carries after `w`.
pub open spec fn pk_h_count(pk: Seq<u8>) -> int {
    (pk.len() - 96) / 48
}

/// The i-th generator block of a serialized public key.
pub open spec fn pk_h(pk: Seq<u8>, i: int) -> Seq<u8> {
    pk.subrange(96 + 48 * i, 96 + 48 * (i + 1))
}

/// Every generator block is a valid G1 encoding.
pub open spec fn pk_generators_ok(pk: Seq<u8>) -> bool {
    forall|i: int| 0 <= i < pk_h_count(pk) ==> g1_valid(#[trigger] pk_h(pk, i))
}

/// What signing needs of a public key: the generator blocks parse and
/// there are at least `n_msgs + 1` of them. Signing does not read `w`.
pub open spec fn pk_sign_ok(pk: Seq<u8>, n_msgs: int) -> bool {
    pk.len() >= 96 && pk_generators_ok(pk) && pk_h_count(pk) > n_msgs
}

/// What verification needs of a public key: `w` parses too.
pub open spec fn pk_verify_ok(pk: Seq<u8>, n_msgs: int) -> bool {
    pk_sign_ok(pk, n_msgs) && g2_valid(pk_w(pk))
}

/// A 112-byte signature whose three components decode.
pub open spec fn sig_parse_ok(sig: Seq<u8>) -> bool {
    &&& sig.len() == 112
    &&& g1_valid(sig.subrange(0, 48))
    &&& le_val(sig.subrange(48, 80)) < scalar_modulus()
    &&& le_val(sig.subrange(80, 112)) < scalar_modulus()
}

/// The generator multiple of the partial commitment
/// `g1 + h0*s + sum_{i<n} h_{i+1} * HashToScalar(m_i)`, folded left as the
/// group operations compute it.
pub open spec fn b_log_prefix(pk: Seq<u8>, s_val: nat, msgs: Seq<Seq<u8>>, n: int) -> nat
    decreases n,
{
    if n <= 0 {
        (1 + (g1_log(pk_h(pk, 0)) * s_val) % scalar_modulus()) % scalar_modulus()
    } else {
        (b_log_prefix(pk, s_val, msgs, n - 1) + (g1_log(pk_h(pk, n)) * hash_to_scalar_val(
            msgs[n - 1],
        )) % scalar_modulus()) % scalar_modulus()
    }
}

/// The generator multiple of the full commitment `B`.
pub open spec fn bbs_b_log(pk: Seq<u8>, s_val: nat, msgs: Seq<Seq<u8>>) -> nat {
    b_log_prefix(pk, s_val, msgs, msgs.len() as int)
}

/// The signature equation `e(A, w + g2*e) == e(B, g2)`, read over the
/// generator multiples of the prime-order groups.
pub open spec fn bbs_verify_ok(
    pk: Seq<u8>,
    a: Seq<u8>,
    e_val: nat,
    s_val: nat,
    msgs: Seq<Seq<u8>>,
) -> bool {
    (g1_log(a) * ((g2_log(pk_w(pk)) + e_val) % scalar_modulus())) % scalar_modulus() == bbs_b_log(
        pk,
        s_val,
        msgs,
    )
}

/// What `sign` promises of a produced signature: the scalars are
/// canonical, `sk + e` is invertible, and `A` is the commitment divided by
/// `sk + e` — stated through the inverse the signer used.
pub open spec fn sign_ok(pk: Seq<u8>, sk_val: nat, msgs: Seq<Seq<u8>>, sig: Seq<u8>) -> bool {
    let a = sig.subrange(0, 48);
    let e_val = le_val(sig.subrange(48, 80));
    let s_val = le_val(sig.subrange(80, 112));
    &&& sig.len() == 112
    &&& g1_valid(a)
    &&& e_val < scalar_modulus()
    &&& s_val < scalar_modulus()
    &&& (sk_val + e_val) % scalar_modulus() != 0
    &&& exists|inv: nat|
        ((inv * ((sk_val + e_val) % scalar_modulus())) % scalar_modulus() == 1 && g1_log(a) == (
        #[trigger] (bbs_b_log(pk, s_val, msgs) * inv)) % scalar_modulus())
}

/// Parses the generator blocks of a serialized public key. Fails when the
/// key is shorter than its G2 part or any whole 48-byte block is not a
/// valid G1 encoding; trailing bytes short of a whole block are ignored.
pub(crate) fn parse_generators(pk: &[u8]) -> (r: Option<Vec<G1Elem>>)
    ensures
        r is Some <==> (pk@.len() >= 96 && pk_generators_ok(pk@)),
        r matches Some(v) ==> {
            &&& v@.len() == pk_h_count(pk@)
            &&& forall|i: int| 0 <= i < v@.len() ==> (#[trigger] v@[i]).wf() && v@[i]@ == pk_h(
                pk@,
                i,
            )
        },
{
    if pk.len() < 96 {
        return None;
    }
    let count: usize = (pk.len() - 96) / 48;
    proof {
        assert(count == pk_h_count(pk@));
        vstd::arithmetic::div_mod::lemma_fundamental_div_mod(pk@.len() - 96, 48);
        vstd::arithmetic::div_mod::lemma_mod_bound(pk@.len() - 96, 48);
    }
    let mut out: Vec<G1Elem> = Vec::new();
    let mut i: usize = 0;
    while i < count
        invariant
            pk@.len() >= 96,
            pk@.len() <= usize::MAX,
            count == pk_h_count(pk@),
            48 * count <= pk@.len() - 96,
            i <= count,
            out@.len() == i,
            forall|j: int| 0 <= j < i ==> (#[trigger] out@[j]).wf() && out@[j]@ == pk_h(pk@, j),
        decreases count - i,
    {
        proof {
            vstd::arithmetic::mul::lemma_mul_inequality(i as int + 1, count as int, 48);
            assert((i as int + 1) * 48 <= (count as int) * 48);
            assert(96 + 48 * (i as int) + 48 <= pk@.len());
        }
        let block = vstd::slice::slice_subrange(pk, 96 + 48 * i, 96 + 48 * i + 48);
        proof {
            assert(block@ == pk_h(pk@, i as int));
        }
        match G1Elem::from_compressed(block) {
            Some(p) => { out.push(p) },
            None => {
                proof {
                    assert(!g1_valid(pk_h(pk@, i as int)));
                }
                return None;
            },
        }
        i = i + 1;
    }
    proof {
        assert forall|j: int| 0 <= j < pk_h_count(pk@) implies g1_valid(#[trigger] pk_h(pk@, j)) by {
            assert(out@[j].wf() && out@[j]@ == pk_h(pk@, j));
        }
    }
    Some(out)
}

/// The per-site linkage tag value: the holder secret plus the
/// hash-to-scalar of the SHA-256 of the site identifier, as a generator
/// multiple.
pub open spec fn linkage_tag_val(sk_val: nat, site: Seq<u8>) -> nat {
    (sk_val + hash_to_scalar_val(sha256_of(site))) % scalar_modulus()
}

/// The deterministic per-site linkage tag
/// `(sk + HashToScalar(SHA-256(site_id))) * g1`.
pub fn generate_linkage_tag(sk: &Fr, site_id: &[u8]) -> (r: G1Elem)
    requires
        sk.wf(),
    ensures
        r.wf(),
        r@ == g1_enc(linkage_tag_val(sk.val(), site_id@)),
        r.log() == linkage_tag_val(sk.val(), site_id@),
{
    let hs = sha256(site_id);
    let site_scalar = hash_to_scalar(hs.as_slice());
    let sum = fr_add(sk, &site_scalar);
    g1_mul_gen(&sum)
}

/// The linkage tag is deterministic: any two tags of one holder secret
/// at one site carry the same bytes.
pub proof fn lemma_linkage_tag_deterministic(t1: G1Elem, t2: G1Elem, sk_val: nat, site: Seq<u8>)
    requires
        t1@ == g1_enc(linkage_tag_val(sk_val, site)),
        t2@ == g1_enc(linkage_tag_val(sk_val, site)),
    ensures
        t1@ == t2@,
{
}

/// Two linkage tags of different holder secrets at one site differ:
/// distinct canonical secrets stay distinct after the shared site term,
/// and distinct generator multiples have distinct encodings.
pub proof fn lemma_linkage_tag_distinct_holders(
    t1: G1Elem,
    t2: G1Elem,
    sk1: nat,
    sk2: nat,
    site: Seq<u8>,
)
    requires
        sk1 < scalar_modulus(),
        sk2 < scalar_modulus(),
        sk1 != sk2,
        t1@ == g1_enc(linkage_tag_val(sk1, site)),
        t1.log() == linkage_tag_val(sk1, site),
        t2@ == g1_enc(linkage_tag_val(sk2, site)),
        t2.log() == linkage_tag_val(sk2, site),
    ensures
        t1@ != t2@,
{
    let q = scalar_modulus() as int;
    let h = hash_to_scalar_val(sha256_of(site)) as int;
    if linkage_tag_val(sk1, site) == linkage_tag_val(sk2, site) {
        vstd::arithmetic::div_mod::lemma_mod_equivalence(sk1 + h, sk2 + h, q);
        vstd::arithmetic::div_mod::lemma_mod_equivalence(sk1 as int, sk2 as int, q);
        vstd::arithmetic::div_mod::lemma_small_mod(sk1, scalar_modulus());
        vstd::arithmetic::div_mod::lemma_small_mod(sk2, scalar_modulus());
        assert(false);
    }
    assert(g1_log(t1@) != g1_log(t2@));
}

/// One holder's linkage tags at two sites differ whenever the two site
/// hashes land on different scalars.
pub proof fn lemma_linkage_tag_distinct_sites(
    t1: G1Elem,
    t2: G1Elem,
    sk: nat,
    site1: Seq<u8>,
    site2: Seq<u8>,
)
    requires
        sk < scalar_modulus(),
        hash_to_scalar_val(sha256_of(site1)) != hash_to_scalar_val(sha256_of(site2)),
        hash_to_scalar_val(sha256_of(site1)) < scalar_modulus(),
        hash_to_scalar_val(sha256_of(site2)) < scalar_modulus(),
        t1@ == g1_enc(linkage_tag_val(sk, site1)),
        t1.log() == linkage_tag_val(sk, site1),
        t2@ == g1_enc(linkage_tag_val(sk, site2)),
        t2.log() == linkage_tag_val(sk, site2),
    ensures
        t1@ != t2@,
{
    let q = scalar_modulus() as int;
    let h1 = hash_to_scalar_val(sha256_of(site1)) as int;
    let h2 = hash_to_scalar_val(sha256_of(site2)) as int;
    if linkage_tag_val(sk, site1) == linkage_tag_val(sk, site2) {
        vstd::arithmetic::div_mod::lemma_mod_equivalence(sk + h1, sk + h2, q);
        vstd::arithmetic::div_mod::lemma_mod_equivalence(h1, h2, q);
        vstd::arithmetic::div_mod::lemma_small_mod(h1 as nat, scalar_modulus());
        vstd::arithmetic::div_mod::lemma_small_mod(h2 as nat, scalar_modulus());
        assert(false);
    }
    assert(g1_log(t1@) != g1_log(t2@));
}

/// Computes the commitment `B = g1 + h0*s + sum h_{i+1} * m_i` over
/// already-parsed generators.
fn compute_b(h: &Vec<G1Elem>, s: &Fr, messages: &Vec<Vec<u8>>, Ghost(pk): Ghost<Seq<u8>>) -> (r:
    G1Elem)
    requires
        s.wf(),
        h@.len() == pk_h_count(pk),
        h@.len() > messages@.len(),
        forall|i: int| 0 <= i < h@.len() ==> (#[trigger] h@[i]).wf() && h@[i]@ == pk_h(pk, i),
    ensures
        r.wf(),
        r.log() == bbs_b_log(pk, s.val(), messages.deep_view()),
{
    let one = Fr::one();
    let g1 = g1_mul_gen(&one);
    let hs = g1_mul(&h[0], s);
    let mut b = g1_add(&g1, &hs);
    let ghost msgs = messages.deep_view();
    proof {
        assert(b.log() == b_log_prefix(pk, s.val(), msgs, 0));
    }
    let mut i: usize = 0;
    while i < messages.len()
        invariant
            s.wf(),
            h@.len() == pk_h_count(pk),
            h@.len() > messages@.len(),
            forall|k: int| 0 <= k < h@.len() ==> (#[trigger] h@[k]).wf() && h@[k]@ == pk_h(pk, k),
            msgs == messages.deep_view(),
            msgs.len() == messages@.len(),
            i <= messages@.len(),
            b.wf(),
            b.log() == b_log_prefix(pk, s.val(), msgs, i as int),
        decreases messages@.len() - i,
    {
        let m = hash_to_scalar(messages[i].as_slice());
        proof {
            assert(msgs[i as int] == messages@[i as int]@);
        }
        let t = g1_mul(&h[i + 1], &m);
        b = g1_add(&b, &t);
        i = i + 1;
    }
    b
}

/// Signs hashed messages under a parsed-from-bytes secret key and the
/// generators of the public key: draws `e` and `s`, forms
/// `B = g1 + h0*s + sum h_i*m_i`, and returns `A = B * (sk+e)^-1` with the
/// two scalars, 112 bytes in all. `e` is redrawn while `sk + e` is zero;
/// only if the entropy source never yields an invertible draw does the
/// call give up with `CryptoError`.
pub fn sign(
    secret_key: &[u8],
    public_key: &[u8],
    messages: &Vec<Vec<u8>>,
    entropy: &mut EntropyHarvester,
) -> (r: Result<Vec<u8>, VerifyError>)
    requires
        old(entropy).wf(),
    ensures
        final(entropy).wf(),
        r == Err::<Vec<u8>, VerifyError>(VerifyError::InvalidKey) <==> (secret_key@.len() != 32
            || le_val(secret_key@) >= scalar_modulus() || !pk_sign_ok(
            public_key@,
            messages@.len() as int,
        )),
        r is Err ==> (r == Err::<Vec<u8>, VerifyError>(VerifyError::InvalidKey) || r == Err::<
            Vec<u8>,
            VerifyError,
        >(VerifyError::CryptoError)),
        r matches Ok(sig) ==> sign_ok(
            public_key@,
            le_val(secret_key@),
            messages.deep_view(),
            sig@,
        ),
{
    if secret_key.len() != 32 {
        return Err(VerifyError::InvalidKey);
    }
    let sk = match Fr::from_bytes(secret_key) {
        Some(s) => s,
        None => { return Err(VerifyError::InvalidKey) },
    };
    let h = match parse_generators(public_key) {
        Some(h) => h,
        None => { return Err(VerifyError::InvalidKey) },
    };
    if h.len() <= messages.len() {
        return Err(VerifyError::InvalidKey);
    }

    let ent_e = get_entropy(entropy);
    let mut e = Fr::from_bytes_wide(ent_e.as_slice());
    let mut sk_e = fr_add(&sk, &e);
    let mut attempts: usize = 0;
    let mut zero = sk_e.is_zero();
    while zero && attempts < 64
        invariant
            old(entropy).wf(),
            entropy.wf(),
            sk.wf(),
            e.wf(),
            sk_e.wf(),
            sk_e.val() == (sk.val() + e.val()) % scalar_modulus(),
            zero == (sk_e.val() == 0),
        decreases 64 - attempts,
    {
        let ent = get_entropy(entropy);
        e = Fr::from_bytes_wide(ent.as_slice());
        sk_e = fr_add(&sk, &e);
        zero = sk_e.is_zero();
        attempts = attempts + 1;
    }
    if zero {
        return Err(VerifyError::CryptoError);
    }

    let ent_s = get_entropy(entropy);
    let s = Fr::from_bytes_wide(ent_s.as_slice());

    let b = compute_b(&h, &s, messages, Ghost(public_key@));

    let inv = match fr_invert(&sk_e) {
        Some(v) => v,
        None => { return Err(VerifyError::CryptoError) },
    };
    let a = g1_mul(&b, &inv);

    let mut sig: Vec<u8> = Vec::new();
    let ab = a.to_bytes();
    extend_bytes(&mut sig, ab.as_slice());
    let eb = e.to_bytes();
    extend_bytes(&mut sig, eb.as_slice());
    let sb = s.to_bytes();
    extend_bytes(&mut sig, sb.as_slice());

    proof {
        assert(sig@.subrange(0, 48) =~= a@);
        assert(sig@.subrange(48, 80) =~= e@);
        assert(sig@.subrange(80, 112) =~= s@);
        let msgs = messages.deep_view();
        let x = (sk.val() + e.val()) % scalar_modulus();
        assert((inv.val() * x) % scalar_modulus() == 1 && g1_log(sig@.subrange(0, 48)) == (
        bbs_b_log(public_key@, s.val(), msgs) * inv.val()) % scalar_modulus());
    }
    Ok(sig)
}

/// Verifies a 112-byte signature against a public key and messages:
/// parses, reconstructs the commitment, and decides the pairing equation.
/// A cryptographic mismatch is the value `Ok(false)`, never an error.
pub fn verify_signature_safe(
    public_key: &[u8],
    signature: &[u8],
    messages: &Vec<Vec<u8>>,
) -> (r: Result<bool, VerifyError>)
    ensures
        r == Err::<bool, VerifyError>(VerifyError::InvalidKey) <==> !pk_verify_ok(
            public_key@,
            messages@.len() as int,
        ),
        pk_verify_ok(public_key@, messages@.len() as int) ==> (r == Err::<bool, VerifyError>(
            VerifyError::InvalidSignature,
        ) <==> !sig_parse_ok(signature@)),
        pk_verify_ok(public_key@, messages@.len() as int) && sig_parse_ok(signature@) ==> r == Ok::<
            bool,
            VerifyError,
        >(
            bbs_verify_ok(
                public_key@,
                signature@.subrange(0, 48),
                le_val(signature@.subrange(48, 80)),
                le_val(signature@.subrange(80, 112)),
                messages.deep_view(),
            ),
        ),
{
    if public_key.len() < 96 {
        return Err(VerifyError::InvalidKey);
    }
    let wb = vstd::slice::slice_subrange(public_key, 0, 96);
    let w = match G2Elem::from_compressed(wb) {
        Some(w) => w,
        None => { return Err(VerifyError::InvalidKey) },
    };
    let h = match parse_generators(public_key) {
        Some(h) => h,
        None => { return Err(VerifyError::InvalidKey) },
    };
    if h.len() <= messages.len() {
        return Err(VerifyError::InvalidKey);
    }

    if signature.len() != 112 {
        return Err(VerifyError::InvalidSignature);
    }
    let a = match G1Elem::from_compressed(vstd::slice::slice_subrange(signature, 0, 48)) {
        Some(a) => a,
        None => { return Err(VerifyError::InvalidSignature) },
    };
    let e = match Fr::from_bytes(vstd::slice::slice_subrange(signature, 48, 80)) {
        Some(e) => e,
        None => { return Err(VerifyError::InvalidSignature) },
    };
    let s = match Fr::from_bytes(vstd::slice::slice_subrange(signature, 80, 112)) {
        Some(s) => s,
        None => { return Err(VerifyError::InvalidSignature) },
    };

    let b = compute_b(&h, &s, messages, Ghost(public_key@));

    let ge = g2_mul_gen(&e);
    let w_g2e = g2_add(&w, &ge);
    let one = Fr::one();
    let g2gen = g2_mul_gen(&one);
    let ok = pairing_check(&a, &w_g2e, &b, &g2gen);
    proof {
        vstd::arithmetic::div_mod::lemma_small_mod(b.log(), scalar_modulus());
        vstd::arithmetic::mul::lemma_mul_basics(b.log() as int);
        assert(w@ == pk_w(public_key@));
        assert(a@ == signature@.subrange(0, 48));
        assert(e.val() == le_val(signature@.subrange(48, 80)));
        assert(s.val() == le_val(signature@.subrange(80, 112)));
        assert(w_g2e.log() == (g2_log(pk_w(public_key@)) + le_val(signature@.subrange(48, 80)))
            % scalar_modulus());
        assert(b.log() == bbs_b_log(
            public_key@,
            le_val(signature@.subrange(80, 112)),
            messages.deep_view(),
        ));
        assert(g2gen.log() == 1);
        assert((b.log() * 1) % scalar_modulus() == b.log());
    }
    Ok(ok)
}

/// Law: a signature produced by `sign` satisfies the verification
/// equation that `verify_signature_safe` decides, whenever the public key
/// holds `w = g2 * sk` for the signing secret.
pub proof fn lemma_sign_then_verify(pk: Seq<u8>, sk_val: nat, msgs: Seq<Seq<u8>>, sig: Seq<u8>)
    requires
        sign_ok(pk, sk_val, msgs, sig),
        sk_val < scalar_modulus(),
        g2_log(pk_w(pk)) == sk_val,
    ensures
        bbs_verify_ok(
            pk,
            sig.subrange(0, 48),
            le_val(sig.subrange(48, 80)),
            le_val(sig.subrange(80, 112)),
            msgs,
        ),
{
    let q = scalar_modulus() as int;
    let e_val = le_val(sig.subrange(48, 80));
    let s_val = le_val(sig.subrange(80, 112));
    let b = bbs_b_log(pk, s_val, msgs) as int;
    let x = ((sk_val + e_val) % scalar_modulus()) as int;
    let a = g1_log(sig.subrange(0, 48)) as int;
    let inv = choose|inv: nat|
        ((inv * ((sk_val + e_val) % scalar_modulus())) % scalar_modulus() == 1 && g1_log(
            sig.subrange(0, 48),
        ) == (#[trigger] (bbs_b_log(pk, s_val, msgs) * inv)) % scalar_modulus());
    let i = inv as int;
    assert(q > 0);
    lemma_b_log_prefix_bounded(pk, s_val, msgs, msgs.len() as int);
    // (a * x) % q == ((b * i) % q * x) % q == (b * i * x) % q
    vstd::arithmetic::div_mod::lemma_mul_mod_noop_left(b * i, x, q);
    // b * i * x == b * (i * x)
    vstd::arithmetic::mul::lemma_mul_is_associative(b, i, x);
    // (b * (i * x)) % q == (b * ((i * x) % q)) % q == (b * 1) % q
    vstd::arithmetic::div_mod::lemma_mul_mod_noop_right(b, i * x, q);
    vstd::arithmetic::div_mod::lemma_small_mod(b as nat, scalar_modulus());
    assert((a * x) % q == b);
}

/// The folded commitment multiple is reduced, so it is below the order.
pub proof fn lemma_b_log_prefix_bounded(pk: Seq<u8>, s_val: nat, msgs: Seq<Seq<u8>>, n: int)
    ensures
        b_log_prefix(pk, s_val, msgs, n) < scalar_modulus(),
    decreases n,
{
    if n <= 0 {
        vstd::arithmetic::div_mod::lemma_mod_bound(
            (1 + (g1_log(pk_h(pk, 0)) * s_val) % scalar_modulus()) as int,
            scalar_modulus() as int,
        );
    } else {
        lemma_b_log_prefix_bounded(pk, s_val, msgs, n - 1);
        vstd::arithmetic::div_mod::lemma_mod_bound(
            (b_log_prefix(pk, s_val, msgs, n - 1) + (g1_log(pk_h(pk, n)) * hash_to_scalar_val(
                msgs[n - 1],
            )) % scalar_modulus()) as int,
            scalar_modulus() as int,
        );
    }
}

} // verus!
