//! k-anonymity submission buffer with category-dependent thresholds,
//! the household-isolation blinding factor, and the vault key parser.
//! A category's points are held back until enough distinct identities
//! have contributed; a release strips identities and floors timestamps.
//! Differential-privacy noise on the released values is the caller's
//! floating-point step and happens outside this crate.
use crate::hashes::{sha256, sha256_of};
use crate::periwinkle::{now_unix_nanos, now_unix_seconds};
use crate::wire::{bytes_eq, extend_bytes, le_bytes};
use vstd::bytes::{spec_u64_to_le_bytes, u64_to_le_bytes};
use vstd::prelude::*;
use vstd::string::StringExecFns;
use vstd::string::StringSliceAdditionalSpecFns;

verus! {

/// One submitted macro data point. The value is carried as the bit
/// pattern of its 64-bit float; the identity hash is a SHA-256 digest,
/// and is empty once the point has been released.
pub struct MacroDataPoint {
    pub category: String,
    pub value_bits: u64,
    pub timestamp: u64,
    pub identity_hash: Vec<u8>,
}

/// A per-category FIFO of pending points next to the distinct identity
/// hashes seen for the category.
pub struct AnonymityBuffer {
    pub category: String,
    pub data_points: Vec<MacroDataPoint>,
    pub unique_identities: Vec<Vec<u8>>,
}

/// The distinct identity digests of a buffer.
pub open spec fn buf_ids(b: &AnonymityBuffer) -> Seq<Seq<u8>> {
    b.unique_identities.deep_view()
}

impl AnonymityBuffer {
    /// No identity digest is listed twice.
    pub open spec fn wf(&self) -> bool {
        forall|i: int, j: int|
            0 <= i < j < buf_ids(self).len() ==> buf_ids(self)[i] != buf_ids(self)[j]
    }

    /// An empty buffer for a category.
    pub fn new(category: String) -> (r: AnonymityBuffer)
        ensures
            r.wf(),
            r.category@ == category@,
            r.data_points@.len() == 0,
            buf_ids(&r).len() == 0,
    {
        AnonymityBuffer { category, data_points: Vec::new(), unique_identities: Vec::new() }
    }

    /// Appends a point, counting its identity if it is new.
    pub fn add_data_point(&mut self, point: MacroDataPoint)
        requires
            old(self).wf(),
        ensures
            final(self).wf(),
            final(self).category == old(self).category,
            final(self).data_points@ == old(self).data_points@ + seq![point],
            buf_ids(final(self)) == if buf_ids(old(self)).contains(point.identity_hash@) {
                buf_ids(old(self))
            } else {
                buf_ids(old(self)) + seq![point.identity_hash@]
            },
    {
        let mut found = false;
        let mut i: usize = 0;
        while i < self.unique_identities.len()
            invariant
                self == old(self),
                old(self).wf(),
                i <= buf_ids(self).len(),
                found == exists|j: int|
                    0 <= j < i && buf_ids(self)[j] == point.identity_hash@,
            decreases buf_ids(self).len() - i,
        {
            let hit = bytes_eq(self.unique_identities[i].as_slice(), point.identity_hash.as_slice());
            proof {
                assert(buf_ids(self)[i as int] == self.unique_identities@[i as int]@);
            }
            if hit {
                found = true;
            }
            i = i + 1;
        }
        proof {
            assert(found == buf_ids(self).contains(point.identity_hash@));
        }
        if !found {
            let mut copy: Vec<u8> = Vec::new();
            extend_bytes(&mut copy, point.identity_hash.as_slice());
            self.unique_identities.push(copy);
            proof {
                assert(buf_ids(self) =~~= buf_ids(old(self)) + seq![point.identity_hash@]);
            }
        }
        self.data_points.push(point);
    }

    /// How many distinct identities the buffer has seen.
    pub fn unique_count(&self) -> (r: usize)
        ensures
            r == buf_ids(self).len(),
    {
        self.unique_identities.len()
    }

    /// Disclosing more than three attributes at once invites correlation;
    /// such requests are rejected.
    pub fn check_attribute_safety(attributes: &Vec<String>) -> (r: bool)
        ensures
            r == (attributes@.len() <= 3),
    {
        attributes.len() <= 3
    }

    /// Drains the buffer and forgets the identity counts.
    pub fn flush(&mut self) -> (r: Vec<MacroDataPoint>)
        requires
            old(self).wf(),
        ensures
            final(self).wf(),
            final(self).category == old(self).category,
            r@ == old(self).data_points@,
            final(self).data_points@.len() == 0,
            buf_ids(final(self)).len() == 0,
    {
        let mut drained: Vec<MacroDataPoint> = Vec::new();
        std::mem::swap(&mut drained, &mut self.data_points);
        self.unique_identities = Vec::new();
        drained
    }
}

/// The k-anonymity floor.
pub open spec fn base_threshold() -> int {
    15
}

/// The release threshold of a category: doubled for the most sensitive
/// categories, raised for the quasi-identifying ones.
pub open spec fn spec_threshold(cat: Seq<char>) -> int {
    if cat == "HIV_STATUS"@ || cat == "POLITICAL_AFFILIATION"@ {
        2 * base_threshold()
    } else if cat == "AGE_BRACKET"@ || cat == "ZIP_CODE"@ {
        base_threshold() + 5
    } else {
        base_threshold()
    }
}

/// The dynamic per-category threshold.
pub fn get_dynamic_threshold(category: &String) -> (r: usize)
    ensures
        r == spec_threshold(category@),
{
    let hiv = String::from_str("HIV_STATUS");
    let pol = String::from_str("POLITICAL_AFFILIATION");
    let age = String::from_str("AGE_BRACKET");
    let zip = String::from_str("ZIP_CODE");
    if *category == hiv || *category == pol {
        30
    } else if *category == age || *category == zip {
        20
    } else {
        15
    }
}

/// The buffer engine: one buffer per category.
pub struct AnonymityEngine {
    pub buffers: Vec<AnonymityBuffer>,
}

/// The position of a category's buffer, or -1.
pub open spec fn cat_idx_from(bufs: Seq<AnonymityBuffer>, cat: Seq<char>, i: int) -> int
    decreases bufs.len() - i,
{
    if i < 0 || i >= bufs.len() {
        -1
    } else if bufs[i].category@ == cat {
        i
    } else {
        cat_idx_from(bufs, cat, i + 1)
    }
}

pub open spec fn cat_idx(bufs: Seq<AnonymityBuffer>, cat: Seq<char>) -> int {
    cat_idx_from(bufs, cat, 0)
}

/// The identity digests buffered for a category, empty when none is.
pub open spec fn cat_ids(bufs: Seq<AnonymityBuffer>, cat: Seq<char>) -> Seq<Seq<u8>> {
    if cat_idx(bufs, cat) >= 0 {
        buf_ids(&bufs[cat_idx(bufs, cat)])
    } else {
        Seq::empty()
    }
}

/// The points buffered for a category, empty when none is.
pub open spec fn cat_points(bufs: Seq<AnonymityBuffer>, cat: Seq<char>) -> Seq<MacroDataPoint> {
    if cat_idx(bufs, cat) >= 0 {
        bufs[cat_idx(bufs, cat)].data_points@
    } else {
        Seq::empty()
    }
}

/// How many distinct identities the category will have seen once one
/// more submission with the given digest lands.
pub open spec fn count_after(bufs: Seq<AnonymityBuffer>, cat: Seq<char>, idh: Seq<u8>) -> int {
    cat_ids(bufs, cat).len() + if cat_ids(bufs, cat).contains(idh) {
        0int
    } else {
        1int
    }
}

proof fn lemma_cat_idx_step(bufs: Seq<AnonymityBuffer>, cat: Seq<char>, i: int)
    requires
        0 <= i <= bufs.len(),
        forall|j: int| 0 <= j < i ==> bufs[j].category@ != cat,
    ensures
        cat_idx(bufs, cat) == cat_idx_from(bufs, cat, i),
    decreases i,
{
    if i > 0 {
        lemma_cat_idx_step(bufs, cat, i - 1);
    }
}

/// No two buffers share a category.
pub open spec fn distinct_categories(bufs: Seq<AnonymityBuffer>) -> bool {
    forall|i: int, j: int|
        0 <= i < j < bufs.len() ==> bufs[i].category@ != bufs[j].category@
}

impl AnonymityEngine {
    pub open spec fn wf(&self) -> bool {
        &&& forall|i: int| 0 <= i < self.buffers@.len() ==> (#[trigger] self.buffers@[i]).wf()
        &&& distinct_categories(self.buffers@)
    }

    /// An engine with no buffers.
    pub fn new() -> (r: AnonymityEngine)
        ensures
            r.wf(),
            r.buffers@.len() == 0,
    {
        AnonymityEngine { buffers: Vec::new() }
    }

    /// The position of a category's buffer, if it exists.
    fn find_buffer(&self, category: &String) -> (r: Option<usize>)
        ensures
            r matches Some(i) ==> i == cat_idx(self.buffers@, category@) && i
                < self.buffers@.len() && self.buffers@[i as int].category@ == category@,
            r is None ==> cat_idx(self.buffers@, category@) == -1,
    {
        let mut i: usize = 0;
        while i < self.buffers.len()
            invariant
                i <= self.buffers@.len(),
                forall|j: int| 0 <= j < i ==> (#[trigger] self.buffers@[j]).category@ != category@,
            decreases self.buffers@.len() - i,
        {
            if self.buffers[i].category == *category {
                proof {
                    lemma_cat_idx_step(self.buffers@, category@, i as int);
                }
                return Some(i);
            }
            i = i + 1;
        }
        proof {
            lemma_cat_idx_step(self.buffers@, category@, self.buffers@.len() as int);
        }
        None
    }

    /// The attribute-correlation guard of the engine surface.
    pub fn check_attribute_safety(&self, attributes: &Vec<String>) -> (r: bool)
        ensures
            r == (attributes@.len() <= 3),
    {
        attributes.len() <= 3
    }

    /// The distinct-identity count of each category.
    pub fn get_buffer_stats(&self) -> (r: Vec<(String, usize)>)
        ensures
            r@.len() == self.buffers@.len(),
            forall|i: int|
                0 <= i < r@.len() ==> (#[trigger] r@[i]).0@ == self.buffers@[i].category@
                    && r@[i].1 == buf_ids(&self.buffers@[i]).len(),
    {
        let mut out: Vec<(String, usize)> = Vec::new();
        let mut i: usize = 0;
        while i < self.buffers.len()
            invariant
                i <= self.buffers@.len(),
                out@.len() == i,
                forall|j: int|
                    0 <= j < i ==> (#[trigger] out@[j]).0@ == self.buffers@[j].category@
                        && out@[j].1 == buf_ids(&self.buffers@[j]).len(),
            decreases self.buffers@.len() - i,
        {
            let name = self.buffers[i].category.clone();
            let count = self.buffers[i].unique_count();
            out.push((name, count));
            i = i + 1;
        }
        out
    }

    /// Submits one point: the identity is hashed and never stored raw,
    /// the point joins its category's buffer, and when the category's
    /// distinct-identity count reaches its threshold the whole buffer is
    /// released at once — identities stripped and timestamps floored to
    /// the hour — else nothing leaves the engine and the point is kept.
    pub fn submit_macro_data(&mut self, category: String, value_bits: u64, identity: &[u8]) -> (r:
        Option<Vec<MacroDataPoint>>)
        requires
            old(self).wf(),
        ensures
            final(self).wf(),
            r is Some <==> count_after(
                old(self).buffers@,
                category@,
                sha256_of(identity@),
            ) >= spec_threshold(category@),
            r matches Some(v) ==> {
                &&& v@.len() == cat_points(old(self).buffers@, category@).len() + 1
                &&& forall|p: int|
                    0 <= p < v@.len() ==> (#[trigger] v@[p]).identity_hash@.len() == 0
                &&& forall|p: int| 0 <= p < v@.len() ==> (#[trigger] v@[p]).timestamp % 3600 == 0
                &&& forall|p: int|
                    0 <= p < v@.len() - 1 ==> (#[trigger] v@[p]).value_bits == cat_points(
                        old(self).buffers@,
                        category@,
                    )[p].value_bits
                &&& forall|p: int|
                    0 <= p < v@.len() - 1 ==> (#[trigger] v@[p]).category@ == cat_points(
                        old(self).buffers@,
                        category@,
                    )[p].category@
                &&& v@[v@.len() - 1].value_bits == value_bits
                &&& v@[v@.len() - 1].category@ == category@
                &&& cat_points(final(self).buffers@, category@).len() == 0
                &&& cat_ids(final(self).buffers@, category@).len() == 0
            },
            r is None ==> {
                &&& cat_points(final(self).buffers@, category@).len() == cat_points(
                    old(self).buffers@,
                    category@,
                ).len() + 1
                &&& forall|p: int|
                    0 <= p < cat_points(old(self).buffers@, category@).len()
                        ==> (#[trigger] cat_points(final(self).buffers@, category@)[p]).value_bits
                        == cat_points(old(self).buffers@, category@)[p].value_bits
                &&& cat_points(final(self).buffers@, category@).last().value_bits == value_bits
                &&& cat_ids(final(self).buffers@, category@).len() == count_after(
                    old(self).buffers@,
                    category@,
                    sha256_of(identity@),
                )
            },
            forall|c: Seq<char>|
                c != category@ ==> #[trigger] cat_points(final(self).buffers@, c) == cat_points(
                    old(self).buffers@,
                    c,
                ) && cat_ids(final(self).buffers@, c) == cat_ids(old(self).buffers@, c),
    {
        let identity_hash = sha256(identity);
        let timestamp = now_unix_seconds();
        let threshold = get_dynamic_threshold(&category);

        let ghost obufs = self.buffers@;
        let mut buffer = match self.find_buffer(&category) {
            Some(i) => {
                let b = self.buffers.remove(i);
                proof {
                    let ci = cat_idx(obufs, category@);
                    assert(b == obufs[ci]);
                    assert(self.buffers@ == obufs.remove(ci));
                    assert forall|j: int|
                        0 <= j < self.buffers@.len() implies (#[trigger] self.buffers@[j]).category@
                        != category@ by {
                        if j < ci {
                            assert(obufs.remove(ci)[j] == obufs.subrange(0, ci)[j]);
                            assert(self.buffers@[j] == obufs[j]);
                            lemma_cat_idx_prefix(obufs, category@, j);
                        } else {
                            assert(obufs.remove(ci)[j] == obufs.subrange(ci + 1, obufs.len() as int)[
                                j - ci]);
                            assert(self.buffers@[j] == obufs[j + 1]);
                            assert(obufs[ci].category@ == category@);
                            assert(obufs[ci].category@ != obufs[j + 1].category@);
                        }
                    }
                }
                b
            },
            None => {
                proof {
                    assert forall|j: int|
                        0 <= j < self.buffers@.len() implies (#[trigger] self.buffers@[j]).category@
                        != category@ by {
                        lemma_cat_idx_none(self.buffers@, category@, 0, j);
                    }
                }
                let name = category.clone();
                AnonymityBuffer::new(name)
            },
        };
        proof {
            if cat_idx(obufs, category@) < 0 {
                assert(buffer.data_points@ =~= cat_points(obufs, category@));
                assert(buf_ids(&buffer) =~= cat_ids(obufs, category@));
            }
            assert(buffer.data_points@ == cat_points(obufs, category@));
            assert(buf_ids(&buffer) == cat_ids(obufs, category@));
            assert(forall|j: int|
                0 <= j < self.buffers@.len() ==> (#[trigger] self.buffers@[j]).category@
                    != category@);
        }

        let point = MacroDataPoint {
            category: category.clone(),
            value_bits,
            timestamp,
            identity_hash,
        };
        buffer.add_data_point(point);
        let count = buffer.unique_count();
        let ready = count >= threshold;
        proof {
            assert(count == count_after(obufs, category@, sha256_of(identity@)));
        }

        proof {
            assert(buffer.category@ == category@);
        }
        let result = if ready {
            let drained = buffer.flush();
            self.buffers.push(buffer);
            proof {
                lemma_cat_idx_last(self.buffers@, category@);
            }
            let mut released: Vec<MacroDataPoint> = Vec::new();
            let mut p: usize = 0;
            while p < drained.len()
                invariant
                    p <= drained@.len(),
                    released@.len() == p,
                    forall|t: int|
                        0 <= t < p ==> (#[trigger] released@[t]).identity_hash@.len() == 0,
                    forall|t: int| 0 <= t < p ==> (#[trigger] released@[t]).timestamp % 3600 == 0,
                    forall|t: int|
                        0 <= t < p ==> (#[trigger] released@[t]).value_bits
                            == drained@[t].value_bits,
                    forall|t: int|
                        0 <= t < p ==> (#[trigger] released@[t]).category@
                            == drained@[t].category@,
                decreases drained@.len() - p,
            {
                let src = &drained[p];
                let floored = (src.timestamp / 3600) * 3600;
                proof {
                    vstd::arithmetic::div_mod::lemma_fundamental_div_mod(
                        src.timestamp as int,
                        3600,
                    );
                    vstd::arithmetic::div_mod::lemma_mod_multiples_basic(
                        (src.timestamp as int) / 3600,
                        3600,
                    );
                }
                let cleaned = MacroDataPoint {
                    category: src.category.clone(),
                    value_bits: src.value_bits,
                    timestamp: floored,
                    identity_hash: Vec::new(),
                };
                released.push(cleaned);
                p = p + 1;
            }
            Some(released)
        } else {
            self.buffers.push(buffer);
            proof {
                lemma_cat_idx_last(self.buffers@, category@);
            }
            None
        };
        proof {
            assert(distinct_categories(self.buffers@));
            assert forall|c: Seq<char>| c != category@ implies #[trigger] cat_points(
                self.buffers@,
                c,
            ) == cat_points(obufs, c) && cat_ids(self.buffers@, c) == cat_ids(obufs, c) by {
                lemma_other_categories_framed(obufs, self.buffers@, category@, c);
            }
        }
        result
    }
}

/// A missing category matches no buffer at all.
proof fn lemma_cat_idx_none(bufs: Seq<AnonymityBuffer>, cat: Seq<char>, i: int, j: int)
    requires
        0 <= i <= j < bufs.len(),
        cat_idx_from(bufs, cat, i) == -1,
    ensures
        bufs[j].category@ != cat,
    decreases j - i,
{
    if i < j {
        lemma_cat_idx_none(bufs, cat, i + 1, j);
    }
}

/// The search yields -1 or a position, nothing else.
proof fn lemma_cat_idx_from_min(bufs: Seq<AnonymityBuffer>, cat: Seq<char>, s: int)
    requires
        0 <= s,
    ensures
        cat_idx_from(bufs, cat, s) >= -1,
    decreases bufs.len() - s,
{
    if s < bufs.len() && bufs[s].category@ != cat {
        lemma_cat_idx_from_min(bufs, cat, s + 1);
    }
}

/// A found position carries the category searched for.
proof fn lemma_cat_idx_from_found(bufs: Seq<AnonymityBuffer>, cat: Seq<char>, s: int)
    requires
        0 <= s,
        cat_idx_from(bufs, cat, s) >= 0,
    ensures
        s <= cat_idx_from(bufs, cat, s) < bufs.len(),
        bufs[cat_idx_from(bufs, cat, s)].category@ == cat,
    decreases bufs.len() - s,
{
    if s < bufs.len() && bufs[s].category@ != cat {
        lemma_cat_idx_from_found(bufs, cat, s + 1);
    }
}

/// With pairwise-distinct categories, any matching position is the found
/// one.
proof fn lemma_cat_idx_of_match(bufs: Seq<AnonymityBuffer>, cat: Seq<char>, i: int)
    requires
        distinct_categories(bufs),
        0 <= i < bufs.len(),
        bufs[i].category@ == cat,
    ensures
        cat_idx(bufs, cat) == i,
{
    assert forall|j: int| 0 <= j < i implies bufs[j].category@ != cat by {
        assert(bufs[j].category@ != bufs[i].category@);
    }
    lemma_cat_idx_step(bufs, cat, i);
}

/// Replacing the one buffer of a category leaves every other category's
/// buffered points and identities unchanged.
proof fn lemma_other_categories_framed(
    obufs: Seq<AnonymityBuffer>,
    nbufs: Seq<AnonymityBuffer>,
    cat: Seq<char>,
    c: Seq<char>,
)
    requires
        distinct_categories(obufs),
        distinct_categories(nbufs),
        c != cat,
        nbufs.len() >= 1,
        nbufs[nbufs.len() - 1].category@ == cat,
        cat_idx(obufs, cat) >= 0 ==> nbufs == obufs.remove(cat_idx(obufs, cat)).push(
            nbufs[nbufs.len() - 1],
        ),
        cat_idx(obufs, cat) < 0 ==> nbufs == obufs.push(nbufs[nbufs.len() - 1]),
    ensures
        cat_points(nbufs, c) == cat_points(obufs, c),
        cat_ids(nbufs, c) == cat_ids(obufs, c),
{
    let ci = cat_idx(obufs, cat);
    if ci >= 0 {
        lemma_cat_idx_from_found(obufs, cat, 0);
    }
    let t = cat_idx(obufs, c);
    lemma_cat_idx_from_min(obufs, c, 0);
    if t >= 0 {
        lemma_cat_idx_from_found(obufs, c, 0);
        let p: int = if ci >= 0 && t > ci {
            t - 1
        } else {
            t
        };
        if ci >= 0 {
            assert(t != ci);
            if t < ci {
                assert(obufs.remove(ci)[t] == obufs.subrange(0, ci)[t]);
            } else {
                assert(obufs.remove(ci)[t - 1] == obufs.subrange(ci + 1, obufs.len() as int)[t - 1
                    - ci]);
            }
        }
        assert(nbufs[p] == obufs[t]);
        lemma_cat_idx_of_match(nbufs, c, p);
        assert(cat_points(nbufs, c) == nbufs[p].data_points@);
        assert(cat_ids(nbufs, c) == buf_ids(&nbufs[p]));
    } else {
        assert forall|j: int| 0 <= j < nbufs.len() implies (#[trigger] nbufs[j]).category@ != c by {
            if j == nbufs.len() - 1 {
            } else {
                let oj: int = if ci >= 0 && j >= ci {
                    j + 1
                } else {
                    j
                };
                if ci >= 0 {
                    assert(obufs.remove(ci).len() == obufs.len() - 1);
                    assert(nbufs.len() == obufs.len());
                    if j < ci {
                        assert(obufs.remove(ci)[j] == obufs.subrange(0, ci)[j]);
                        assert(nbufs[j] == obufs[j]);
                    } else {
                        assert(obufs.remove(ci)[j] == obufs.subrange(ci + 1, obufs.len() as int)[j
                            - ci]);
                        assert(nbufs[j] == obufs[j + 1]);
                    }
                } else {
                    assert(nbufs[j] == obufs[j]);
                }
                assert(0 <= oj < obufs.len());
                lemma_cat_idx_none(obufs, c, 0, oj);
                assert(nbufs[j] == obufs[oj]);
            }
        }
        lemma_cat_idx_step(nbufs, c, nbufs.len() as int);
        assert(cat_idx(nbufs, c) == -1);
    }
}

/// Positions before the first match do not hold the category.
proof fn lemma_cat_idx_prefix(bufs: Seq<AnonymityBuffer>, cat: Seq<char>, j: int)
    requires
        0 <= j < cat_idx(bufs, cat),
    ensures
        bufs[j].category@ != cat,
    decreases j,
{
    lemma_cat_idx_no_match(bufs, cat, 0, j);
}

/// `cat_idx_from` skips exactly the non-matching positions.
proof fn lemma_cat_idx_no_match(bufs: Seq<AnonymityBuffer>, cat: Seq<char>, i: int, j: int)
    requires
        0 <= i <= j,
        j < cat_idx_from(bufs, cat, i),
    ensures
        bufs[j].category@ != cat,
    decreases j - i,
{
    if cat_idx_from(bufs, cat, i) >= 0 {
        if i < j {
            lemma_cat_idx_no_match(bufs, cat, i + 1, j);
        }
    }
}

/// When only the last buffer holds the category, it is the one found.
proof fn lemma_cat_idx_last(bufs: Seq<AnonymityBuffer>, cat: Seq<char>)
    requires
        bufs.len() >= 1,
        bufs.last().category@ == cat,
        forall|j: int| 0 <= j < bufs.len() - 1 ==> (#[trigger] bufs[j]).category@ != cat,
    ensures
        cat_idx(bufs, cat) == bufs.len() - 1,
{
    lemma_cat_idx_step(bufs, cat, bufs.len() - 1);
}

/// The preimage of the household-isolation blinding factor.
pub open spec fn blinding_preimage(
    multipass_id: Seq<u8>,
    hardware_anchor: Seq<u8>,
    session_counter: u64,
    nanos: nat,
) -> Seq<u8> {
    "MULTIPASS_BLINDING:".spec_bytes() + multipass_id + "|ANCHOR:".spec_bytes() + hardware_anchor
        + "|SESSION:".spec_bytes() + spec_u64_to_le_bytes(session_counter) + le_bytes(nanos, 16)
}

/// Derives a per-persona blinding factor: a SHA-256 over the multipass
/// identifier, the hardware anchor, the session counter, and the clock's
/// nanoseconds — so two calls differ even for one persona.
pub fn generate_multipass_blinding_factor(
    multipass_id: &[u8],
    hardware_anchor: &[u8],
    session_counter: u64,
) -> (r: Vec<u8>)
    ensures
        r@.len() == 32,
        exists|t: nat|
            r@ == sha256_of(
                #[trigger] blinding_preimage(multipass_id@, hardware_anchor@, session_counter, t),
            ),
{
    let mut pre: Vec<u8> = Vec::new();
    extend_bytes(&mut pre, "MULTIPASS_BLINDING:".as_bytes());
    extend_bytes(&mut pre, multipass_id);
    extend_bytes(&mut pre, "|ANCHOR:".as_bytes());
    extend_bytes(&mut pre, hardware_anchor);
    extend_bytes(&mut pre, "|SESSION:".as_bytes());
    let cb = u64_to_le_bytes(session_counter);
    extend_bytes(&mut pre, cb.as_slice());
    let nanos = now_unix_nanos();
    let nb = crate::periwinkle::u128_le_bytes(nanos);
    extend_bytes(&mut pre, nb.as_slice());
    proof {
        assert(pre@ =~= blinding_preimage(
            multipass_id@,
            hardware_anchor@,
            session_counter,
            nanos as nat,
        ));
    }
    sha256(pre.as_slice())
}

/// The position of the first colon in a vault key, or -1.
pub open spec fn colon_pos_from(key: Seq<u8>, i: int) -> int
    decreases key.len() - i,
{
    if i < 0 || i >= key.len() {
        -1
    } else if key[i] == 58 {
        i
    } else {
        colon_pos_from(key, i + 1)
    }
}

pub open spec fn colon_pos(key: Seq<u8>) -> int {
    colon_pos_from(key, 0)
}

proof fn lemma_colon_pos_step(key: Seq<u8>, i: int)
    requires
        0 <= i <= key.len(),
        forall|j: int| 0 <= j < i ==> key[j] != 58,
    ensures
        colon_pos(key) == colon_pos_from(key, i),
    decreases i,
{
    if i > 0 {
        lemma_colon_pos_step(key, i - 1);
    }
}

/// Every byte is an ASCII decimal digit.
pub open spec fn all_digits(s: Seq<u8>) -> bool {
    forall|i: int| 0 <= i < s.len() ==> 48 <= #[trigger] s[i] <= 57
}

/// The decimal value of the first `n` digit bytes.
pub open spec fn dec_prefix(s: Seq<u8>, n: int) -> int
    decreases n,
{
    if n <= 0 {
        0
    } else {
        dec_prefix(s, n - 1) * 10 + (s[n - 1] - 48)
    }
}

/// The timestamp a vault key's tail denotes: its decimal value when it is
/// a well-formed number that fits, else zero.
pub open spec fn parsed_ts(s: Seq<u8>) -> int {
    if s.len() > 0 && all_digits(s) && dec_prefix(s, s.len() as int) <= u64::MAX {
        dec_prefix(s, s.len() as int)
    } else {
        0
    }
}

proof fn lemma_dec_prefix_nonneg(s: Seq<u8>, n: int)
    requires
        forall|i: int| 0 <= i < n ==> 48 <= #[trigger] s[i] <= 57,
    ensures
        dec_prefix(s, n) >= 0,
    decreases n,
{
    if n > 0 {
        lemma_dec_prefix_nonneg(s, n - 1);
    }
}

proof fn lemma_dec_prefix_monotone(s: Seq<u8>, m: int, n: int)
    requires
        0 <= m <= n,
        forall|i: int| 0 <= i < n ==> 48 <= #[trigger] s[i] <= 57,
    ensures
        dec_prefix(s, m) <= dec_prefix(s, n),
    decreases n - m,
{
    if m < n {
        lemma_dec_prefix_monotone(s, m, n - 1);
        lemma_dec_prefix_nonneg(s, n - 1);
    }
}

/// Splits a vault key at its first colon into the category bytes and the
/// decimal timestamp after it; a key without a colon has no entry, and an
/// unparsable timestamp reads as zero.
pub fn parse_vault_key(key: &[u8]) -> (r: Option<(Vec<u8>, u64)>)
    ensures
        r is Some <==> colon_pos(key@) >= 0,
        r matches Some(p) ==> {
            &&& p.0@ == key@.subrange(0, colon_pos(key@))
            &&& p.1 == parsed_ts(key@.subrange(colon_pos(key@) + 1, key@.len() as int))
        },
{
    let mut c: usize = 0;
    let mut found = false;
    while c < key.len() && !found
        invariant
            c <= key@.len(),
            found ==> c < key@.len() && key@[c as int] == 58,
            forall|j: int| 0 <= j < c ==> key@[j] != 58,
        decreases key@.len() - c, (if found { 0int } else { 1int }),
    {
        if key[c] == 58 {
            found = true;
        } else {
            c = c + 1;
        }
    }
    if !found {
        proof {
            lemma_colon_pos_step(key@, key@.len() as int);
        }
        return None;
    }
    proof {
        lemma_colon_pos_step(key@, c as int);
        assert(colon_pos(key@) == c as int);
    }
    let category = vstd::slice::slice_to_vec(vstd::slice::slice_subrange(key, 0, c));
    let tail = vstd::slice::slice_subrange(key, c + 1, key.len());

    let mut acc: u64 = 0;
    let mut bad = tail.len() == 0;
    let mut i: usize = 0;
    while i < tail.len()
        invariant
            i <= tail@.len(),
            !bad ==> tail@.len() > 0 && (forall|j: int|
                0 <= j < i ==> 48 <= #[trigger] tail@[j] <= 57) && acc == dec_prefix(
                tail@,
                i as int,
            ),
            bad ==> parsed_ts(tail@) == 0,
        decreases tail@.len() - i,
    {
        let b = tail[i];
        if bad {
        } else if b < 48 || b > 57 {
            bad = true;
            proof {
                assert(!all_digits(tail@));
            }
        } else {
            let d = (b - 48) as u64;
            if acc > (u64::MAX - d) / 10 {
                bad = true;
                proof {
                    if all_digits(tail@) {
                        assert(dec_prefix(tail@, i as int + 1) == acc * 10 + d);
                        assert(acc * 10 + d > u64::MAX) by {
                            assert(acc > (u64::MAX - d) / 10);
                            vstd::arithmetic::div_mod::lemma_fundamental_div_mod(
                                (u64::MAX - d) as int,
                                10,
                            );
                        }
                        lemma_dec_prefix_monotone(tail@, i as int + 1, tail@.len() as int);
                    }
                }
            } else {
                proof {
                    vstd::arithmetic::div_mod::lemma_fundamental_div_mod((u64::MAX - d) as int, 10);
                    vstd::arithmetic::div_mod::lemma_mod_bound((u64::MAX - d) as int, 10);
                    vstd::arithmetic::mul::lemma_mul_inequality(
                        acc as int,
                        ((u64::MAX - d) / 10) as int,
                        10,
                    );
                }
                acc = acc * 10 + d;
            }
        }
        i = i + 1;
    }
    let ts: u64 = if bad {
        0
    } else {
        acc
    };
    Some((category, ts))
}

/// Whether a vault key belongs to a category and a closed timestamp
/// range.
pub fn vault_key_matches(key: &[u8], category: &[u8], start_timestamp: u64, end_timestamp: u64) -> (
    r: bool)
    ensures
        r == (colon_pos(key@) >= 0 && key@.subrange(0, colon_pos(key@)) == category@
            && start_timestamp <= parsed_ts(
            key@.subrange(colon_pos(key@) + 1, key@.len() as int),
        ) <= end_timestamp),
{
    match parse_vault_key(key) {
        Some((cat, ts)) => bytes_eq(cat.as_slice(), category) && start_timestamp <= ts && ts
            <= end_timestamp,
        None => false,
    }
}

/// The number of set bits in one byte.
pub open spec fn pop8(b: u8) -> int {
    (b as int) % 2 + (b as int) / 2 % 2 + (b as int) / 4 % 2 + (b as int) / 8 % 2 + (b as int)
        / 16 % 2 + (b as int) / 32 % 2 + (b as int) / 64 % 2 + (b as int) / 128 % 2
}

/// The Hamming distance of the first `n` byte pairs.
pub open spec fn hamming(a: Seq<u8>, b: Seq<u8>, n: int) -> int
    decreases n,
{
    if n <= 0 {
        0
    } else {
        hamming(a, b, n - 1) + pop8(a[n - 1] ^ b[n - 1])
    }
}

/// Two blinding factors pass the non-correlatability check when their
/// Hamming distance lies within 100..=156 bits — near half of 256.
pub fn verify_non_correlatability(blinding_factor_1: &[u8; 32], blinding_factor_2: &[u8; 32]) -> (r:
    bool)
    ensures
        r == (100 <= hamming(blinding_factor_1@, blinding_factor_2@, 32) <= 156),
{
    let mut total: usize = 0;
    let mut i: usize = 0;
    while i < 32
        invariant
            i <= 32,
            total == hamming(blinding_factor_1@, blinding_factor_2@, i as int),
            total <= 8 * i,
        decreases 32 - i,
    {
        let x: u8 = blinding_factor_1[i] ^ blinding_factor_2[i];
        let bits: u8 = x % 2 + x / 2 % 2 + x / 4 % 2 + x / 8 % 2 + x / 16 % 2 + x / 32 % 2 + x
            / 64 % 2 + x / 128 % 2;
        proof {
            assert(bits as int == pop8(x));
        }
        total = total + bits as usize;
        i = i + 1;
    }
    100 <= total && total <= 156
}

} // verus!
