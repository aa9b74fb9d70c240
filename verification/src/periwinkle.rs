//! Hardware-entropy service: a ChaCha20-based generator reseeded from an
//! avalanche noise pool, a PUF root, HKDF-derived context secrets and a
//! freshness claim. The pool mixing is verified byte for byte; the
//! generator draws and the clock promise nothing.
use crate::hashes::{sha256, sha256_of};
use crate::sig::{bbs_verify_ok, pk_verify_ok, sig_parse_ok, verify_signature_safe};
use crate::wire::{extend_bytes, le_bytes, le_val};
use rand::{RngCore, SeedableRng};
use rand_chacha::ChaCha20Rng;
use vstd::prelude::*;
use vstd::string::StringSliceAdditionalSpecFns;

verus! {

#[verifier::external_type_specification]
#[verifier::external_body]
pub struct ExChaCha20Rng(ChaCha20Rng);

/// Relies on rand_chacha::ChaCha20Rng::from_seed.
#[verifier::external_body]
fn chacha_from_seed(seed: &[u8]) -> ChaCha20Rng
    requires
        seed@.len() == 32,
{
    let arr: [u8; 32] = seed.try_into().unwrap();
    ChaCha20Rng::from_seed(arr)
}

/// Relies on rand::RngCore::fill_bytes on ChaCha20Rng; only the length of
/// the draw is promised.
#[verifier::external_body]
fn chacha_draw(rng: &mut ChaCha20Rng, n: usize) -> (r: Vec<u8>)
    ensures
        r@.len() == n,
{
    let mut buf = vec![0u8; n];
    rng.fill_bytes(&mut buf);
    buf
}

/// Relies on std::time::SystemTime::now and duration_since(UNIX_EPOCH),
/// read as nanoseconds; nothing is promised of the clock.
#[verifier::external_body]
pub fn now_unix_nanos() -> u128 {
    std::time::SystemTime::now()
        .duration_since(std::time::UNIX_EPOCH)
        .map(|d| d.as_nanos())
        .unwrap_or(0)
}

/// Relies on std::time::SystemTime::now and duration_since(UNIX_EPOCH),
/// read as seconds; nothing is promised of the clock.
#[verifier::external_body]
pub fn now_unix_seconds() -> u64 {
    std::time::SystemTime::now()
        .duration_since(std::time::UNIX_EPOCH)
        .map(|d| d.as_secs())
        .unwrap_or(0)
}

/// The 32 bytes of HKDF-SHA256 output for a salt, key material and info.
pub uninterp spec fn hkdf_sha256_of(salt: Seq<u8>, ikm: Seq<u8>, info: Seq<u8>) -> Seq<u8>;

/// Relies on hkdf::Hkdf::<Sha256>::new and expand: 32 bytes of HKDF-SHA256
/// output, a function of salt, key material and info alone.
#[verifier::external_body]
fn hkdf_sha256(salt: &[u8], ikm: &[u8], info: &[u8]) -> (r: Vec<u8>)
    ensures
        r@ == hkdf_sha256_of(salt@, ikm@, info@),
        r@.len() == 32,
{
    let hk = hkdf::Hkdf::<sha2::Sha256>::new(Some(salt), ikm);
    let mut okm = [0u8; 32];
    let _ = hk.expand(info, &mut okm);
    okm.to_vec()
}

/// One byte rotated left by one bit.
pub open spec fn rotl1(b: u8) -> u8 {
    ((((b as nat) % 128) * 2 + (b as nat) / 128) % 256) as u8
}

/// The avalanche pool after one harvest with digest `h`: the first 32
/// bytes absorb the digest, the next 32 its left-rotated form, the rest
/// stay.
pub open spec fn mixed_pool(pool: Seq<u8>, h: Seq<u8>) -> Seq<u8> {
    Seq::new(
        pool.len(),
        |i: int|
            if 0 <= i < 32 {
                pool[i] ^ h[i]
            } else if 32 <= i < 64 {
                pool[i] ^ rotl1(h[i - 32])
            } else {
                pool[i]
            },
    )
}

/// Little-endian bytes of a 128-bit value.
pub fn u128_le_bytes(x: u128) -> (r: Vec<u8>)
    ensures
        r@ == le_bytes(x as nat, 16),
{
    let mut out: Vec<u8> = Vec::new();
    let mut cur: u128 = x;
    let mut i: usize = 0;
    while i < 16
        invariant
            i <= 16,
            out@.len() == i,
            out@ + le_bytes(cur as nat, 16 - i) == le_bytes(x as nat, 16),
        decreases 16 - i,
    {
        proof {
            assert(le_bytes(cur as nat, 16 - i) == seq![((cur as nat) % 256) as u8] + le_bytes(
                (cur as nat) / 256,
                16 - i - 1,
            ));
        }
        out.push((cur % 256) as u8);
        cur = cur / 256;
        i = i + 1;
    }
    proof {
        assert(out@ + le_bytes(cur as nat, 0) =~= out@);
    }
    out
}

/// The entropy harvester: a reseedable generator, a 232-byte avalanche
/// noise pool, and a 32-byte PUF root.
pub struct EntropyHarvester {
    rng: ChaCha20Rng,
    pool: Vec<u8>,
    puf: Vec<u8>,
}

impl EntropyHarvester {
    /// The avalanche noise pool.
    pub closed spec fn spec_pool(&self) -> Seq<u8> {
        self.pool@
    }

    /// The PUF root.
    pub closed spec fn spec_puf(&self) -> Seq<u8> {
        self.puf@
    }

    pub open spec fn wf(&self) -> bool {
        self.spec_pool().len() == 232 && self.spec_puf().len() == 32
    }

    /// Builds a harvester from hardware-read seed material: a 32-byte PUF
    /// root, a 32-byte generator seed, and a 232-byte initial pool.
    pub fn from_seed_material(puf: Vec<u8>, seed: Vec<u8>, pool: Vec<u8>) -> (r: Option<
        EntropyHarvester,
    >)
        ensures
            r is Some <==> (puf@.len() == 32 && seed@.len() == 32 && pool@.len() == 232),
            r matches Some(h) ==> h.wf() && h.spec_pool() == pool@ && h.spec_puf() == puf@,
    {
        if puf.len() != 32 || seed.len() != 32 || pool.len() != 232 {
            return None;
        }
        let rng = chacha_from_seed(seed.as_slice());
        Some(EntropyHarvester { rng, pool, puf })
    }

    /// Builds a harvester on the software fallback path, deriving the PUF
    /// root and seed from the clock reading and the process identifier as
    /// the hardware-less environments do.
    pub fn from_software_seed(nanos: u128, pid: u32) -> (r: EntropyHarvester)
        ensures
            r.wf(),
            r.spec_puf() == sha256_of(
                le_bytes(nanos as nat, 16)
                    + "SPOOKY_DEV_FALLBACK_ENTROPY_NOT_FOR_PRODUCTION".spec_bytes()
                    + vstd::bytes::spec_u32_to_le_bytes(pid),
            ),
    {
        let mut pre: Vec<u8> = Vec::new();
        let nb = u128_le_bytes(nanos);
        extend_bytes(&mut pre, nb.as_slice());
        extend_bytes(&mut pre, "SPOOKY_DEV_FALLBACK_ENTROPY_NOT_FOR_PRODUCTION".as_bytes());
        let pb = vstd::bytes::u32_to_le_bytes(pid);
        extend_bytes(&mut pre, pb.as_slice());
        let puf = sha256(pre.as_slice());

        let mut pre2: Vec<u8> = Vec::new();
        extend_bytes(&mut pre2, puf.as_slice());
        extend_bytes(&mut pre2, "SEED_DERIVATION".as_bytes());
        let seed = sha256(pre2.as_slice());

        let mut rng = chacha_from_seed(seed.as_slice());
        let pool = chacha_draw(&mut rng, 232);
        EntropyHarvester { rng, pool, puf }
    }

    /// One harvest step: fold the pool and the clock jitter through
    /// SHA-256, absorb the digest into the first 64 pool bytes, and
    /// occasionally reseed the generator from the pool head.
    pub fn harvest(&mut self)
        requires
            old(self).wf(),
        ensures
            final(self).wf(),
            final(self).spec_puf() == old(self).spec_puf(),
            exists|j: nat|
                final(self).spec_pool() == mixed_pool(
                    old(self).spec_pool(),
                    sha256_of(old(self).spec_pool() + le_bytes(j, 16)),
                ),
    {
        let jitter = now_unix_nanos();
        let mut pre: Vec<u8> = Vec::new();
        extend_bytes(&mut pre, self.pool.as_slice());
        let jb = u128_le_bytes(jitter);
        extend_bytes(&mut pre, jb.as_slice());
        let h = sha256(pre.as_slice());
        let ghost target = mixed_pool(self.pool@, h@);

        let mut i: usize = 0;
        while i < 32
            invariant
                old(self).wf(),
                h@.len() == 32,
                i <= 32,
                self.pool@.len() == 232,
                self.puf == old(self).puf,
                target == mixed_pool(old(self).spec_pool(), h@),
                forall|k: int| 0 <= k < i ==> self.pool@[k] == target[k],
                forall|k: int| i <= k < 232 ==> self.pool@[k] == old(self).spec_pool()[k],
            decreases 32 - i,
        {
            let v = self.pool[i] ^ h[i];
            self.pool.set(i, v);
            i = i + 1;
        }
        let mut k: usize = 0;
        while k < 32
            invariant
                old(self).wf(),
                h@.len() == 32,
                k <= 32,
                self.pool@.len() == 232,
                self.puf == old(self).puf,
                target == mixed_pool(old(self).spec_pool(), h@),
                forall|t: int| 0 <= t < 32 ==> self.pool@[t] == target[t],
                forall|t: int| 32 <= t < 32 + k ==> self.pool@[t] == target[t],
                forall|t: int| 32 + k <= t < 232 ==> self.pool@[t] == old(self).spec_pool()[t],
            decreases 32 - k,
        {
            let b = h[k];
            let rot: u8 = (b % 128) * 2 + b / 128;
            let v = self.pool[32 + k] ^ rot;
            self.pool.set(32 + k, v);
            k = k + 1;
        }
        proof {
            assert(self.pool@ =~= target);
        }
        if jitter % 7 == 0 {
            let seed = vstd::slice::slice_subrange(self.pool.as_slice(), 0, 32);
            self.rng = chacha_from_seed(seed);
        }
    }

    /// Harvests, then draws 64 bytes from the generator.
    pub fn get_entropy(&mut self) -> (r: Vec<u8>)
        requires
            old(self).wf(),
        ensures
            final(self).wf(),
            final(self).spec_puf() == old(self).spec_puf(),
            exists|j: nat|
                final(self).spec_pool() == mixed_pool(
                    old(self).spec_pool(),
                    sha256_of(old(self).spec_pool() + le_bytes(j, 16)),
                ),
            r@.len() == 64,
    {
        self.harvest();
        chacha_draw(&mut self.rng, 64)
    }

    /// Harvests, then derives a context-bound secret: HKDF-SHA256 with the
    /// pool head as salt and the PUF root as key material.
    pub fn derive_secret(&mut self, info: &[u8]) -> (r: Vec<u8>)
        requires
            old(self).wf(),
        ensures
            final(self).wf(),
            final(self).spec_puf() == old(self).spec_puf(),
            exists|j: nat|
                final(self).spec_pool() == mixed_pool(
                    old(self).spec_pool(),
                    sha256_of(old(self).spec_pool() + le_bytes(j, 16)),
                ),
            r@ == hkdf_sha256_of(
                final(self).spec_pool().subrange(0, 32),
                final(self).spec_puf(),
                info@,
            ),
            r@.len() == 32,
    {
        self.harvest();
        let salt = vstd::slice::slice_subrange(self.pool.as_slice(), 0, 32);
        hkdf_sha256(salt, self.puf.as_slice(), info)
    }
}

/// Draws 64 bytes of harvested entropy.
pub fn get_entropy(h: &mut EntropyHarvester) -> (r: Vec<u8>)
    requires
        old(h).wf(),
    ensures
        final(h).wf(),
        final(h).spec_puf() == old(h).spec_puf(),
        r@.len() == 64,
{
    h.get_entropy()
}

/// Derives a deterministic hardware secret for a given context.
pub fn get_hardware_secret(h: &mut EntropyHarvester, context: &[u8]) -> (r: Vec<u8>)
    requires
        old(h).wf(),
    ensures
        final(h).wf(),
        final(h).spec_puf() == old(h).spec_puf(),
        exists|j: nat|
            final(h).spec_pool() == mixed_pool(
                old(h).spec_pool(),
                sha256_of(old(h).spec_pool() + le_bytes(j, 16)),
            ),
        r@ == hkdf_sha256_of(final(h).spec_pool().subrange(0, 32), final(h).spec_puf(), context@),
        r@.len() == 32,
{
    h.derive_secret(context)
}

/// High-assurance draw: a freshness claim over the harvester state next to
/// a 64-byte entropy sample.
pub fn get_level4_entropy(h: &mut EntropyHarvester) -> (r: (Vec<u8>, Vec<u8>))
    requires
        old(h).wf(),
    ensures
        final(h).wf(),
        final(h).spec_puf() == old(h).spec_puf(),
        r.0@ == sha256_of("LEVEL_4_FRESHNESS_BINDING".spec_bytes() + final(h).spec_pool()),
        r.0@.len() == 32,
        r.1@.len() == 64,
{
    h.harvest();
    let entropy = h.get_entropy();
    let mut pre: Vec<u8> = Vec::new();
    extend_bytes(&mut pre, "LEVEL_4_FRESHNESS_BINDING".as_bytes());
    extend_bytes(&mut pre, h.pool.as_slice());
    let claim = sha256(pre.as_slice());
    (claim, entropy)
}

/// Checks a PUF response: the signature is read as a BBS+ signature over
/// the challenge as the single message; any parse failure counts as
/// invalid rather than an error.
pub fn verify_puf_signature(public_key: &[u8], challenge: &[u8], signature: &[u8]) -> (r: bool)
    ensures
        r == (pk_verify_ok(public_key@, 1) && sig_parse_ok(signature@) && bbs_verify_ok(
            public_key@,
            signature@.subrange(0, 48),
            le_val(signature@.subrange(48, 80)),
            le_val(signature@.subrange(80, 112)),
            seq![challenge@],
        )),
{
    let mut messages: Vec<Vec<u8>> = Vec::new();
    messages.push(vstd::slice::slice_to_vec(challenge));
    proof {
        assert(messages.deep_view() =~~= seq![challenge@]);
    }
    match verify_signature_safe(public_key, signature, &messages) {
        Ok(v) => v,
        Err(_) => false,
    }
}

} // verus!
