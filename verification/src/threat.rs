//! The threat index: an exact set of malicious names coupled with an
//! approximate-membership filter.
//!
//! The invariant that makes the fast path sound: every name in the exact
//! set is possibly-present in the filter, so a negative filter probe
//! proves absence (no false negatives) and `contains` is exact. Removals
//! rebuild the filter, which does not support deletion. Names are hashed
//! with a cryptographic digest before probing, so adversarial inputs
//! cannot target the filter's probe positions.

use vstd::prelude::*;
use sha2::Digest;
use crate::entropy::{log2_milli, log2_milli_exec};
use crate::typo::clone_bytes;
use crate::name::bytes_eq;

verus! {

/// The SHA-256 digest of a byte string: a function of the bytes alone.
pub uninterp spec fn sha256_of(data: Seq<u8>) -> Seq<u8>;

/// Relies on sha2::Sha256 (via the Digest trait): a 32-byte digest that
/// depends on the input bytes alone.
#[verifier::external_body]
fn sha256(data: &Vec<u8>) -> (r: Vec<u8>)
    ensures
        r@ == sha256_of(data@),
        r@.len() == 32,
{
    let d = sha2::Sha256::digest(data.as_slice());
    d.to_vec()
}

#[verifier::external_type_specification]
#[verifier::external_body]
#[verifier::reject_recursive_types(R)]
#[verifier::reject_recursive_types(S)]
pub struct ExBloomFilter<R, S>(bloom::BloomFilter<R, S>);

/// The items an approximate filter reports possibly present.
pub uninterp spec fn bloom_items(f: bloom::BloomFilter) -> Set<Seq<u8>>;

/// The bit count the filter was built with.
pub uninterp spec fn bloom_bits(f: bloom::BloomFilter) -> nat;

/// Relies on bloom::BloomFilter::with_size: a fresh filter has every bit
/// clear, so with at least one probe per item nothing is possibly
/// present.
#[verifier::external_body]
fn bloom_new(num_bits: usize, num_hashes: u32) -> (r: bloom::BloomFilter)
    requires
        num_bits >= 1,
        num_hashes >= 1,
    ensures
        bloom_items(r) == Set::<Seq<u8>>::empty(),
        bloom_bits(r) == num_bits,
{
    bloom::BloomFilter::with_size(num_bits, num_hashes)
}

/// Relies on bloom::ASMS::insert for BloomFilter: inserting only sets
/// bits, so the item becomes possibly present and nothing stops being so.
#[verifier::external_body]
fn bloom_insert(f: &mut bloom::BloomFilter, item: &Vec<u8>)
    requires
        bloom_bits(*old(f)) >= 1,
    ensures
        bloom_bits(*final(f)) == bloom_bits(*old(f)),
        bloom_items(*final(f)).contains(item@),
        forall|x: Seq<u8>|
            bloom_items(*old(f)).contains(x) ==> bloom_items(*final(f)).contains(x),
{
    bloom::ASMS::insert(f, item);
}

/// Relies on bloom::ASMS::contains for BloomFilter: false positives are
/// possible, false negatives are not — a possibly-present item tests
/// true.
#[verifier::external_body]
fn bloom_contains(f: &bloom::BloomFilter, item: &Vec<u8>) -> (r: bool)
    requires
        bloom_bits(*f) >= 1,
    ensures
        bloom_items(*f).contains(item@) ==> r,
{
    bloom::ASMS::contains(f, item)
}

/// The sequence of stored byte strings holds `n`.
pub open spec fn set_has(s: Seq<Vec<u8>>, n: Seq<u8>) -> bool {
    exists|i: int| 0 <= i < s.len() && (#[trigger] s[i])@ == n
}

/// Filter parameters from the configured false-positive target (per
/// mille) and expected cardinality, mirroring the filter library's own
/// sizing: `bits = n * log2(1/p) / ln 2` and `hashes = bits/n * ln 2`
/// clamped to `[2, 200]`, computed in integer milli-units.
pub open spec fn spec_filter_params(fpr_permille: u32, expected: u32) -> (int, int) {
    let l2 = log2_milli(1000, fpr_permille as nat);
    let bits = (expected * l2 * 1443) / 1000000 + 1;
    let k0 = (bits * 693) / (expected * 1000);
    let hashes: int = if k0 < 2 {
        2
    } else if k0 > 200 {
        200
    } else {
        k0
    };
    (bits, hashes)
}

/// Compute the filter parameters for a configuration.
pub fn filter_params(fpr_permille: u32, expected: u32) -> (r: (usize, u32))
    requires
        1 <= fpr_permille <= 999,
        1 <= expected <= 100000000,
    ensures
        (r.0 as int, r.1 as int) == spec_filter_params(fpr_permille, expected),
        r.0 >= 1,
        2 <= r.1 <= 200,
{
    let l2: u64 = log2_milli_exec(1000, fpr_permille as u64);
    proof {
        assert(expected * l2 * 1443 <= 100000000u64 * 18000 * 1443 && expected * l2
            <= 100000000u64 * 18000) by (nonlinear_arith)
            requires
                expected <= 100000000 && l2 < 18000,
        ;
    }
    let bits: u64 = ((expected as u64) * l2 * 1443) / 1000000 + 1;
    proof {
        assert(bits <= 2597400001u64);
        assert(bits * 693 <= 2597400001u64 * 693) by (nonlinear_arith)
            requires
                bits <= 2597400001u64,
        ;
        assert(expected * 1000u64 <= 100000000000u64) by (nonlinear_arith)
            requires
                expected <= 100000000,
        ;
    }
    let k0: u64 = (bits * 693) / ((expected as u64) * 1000);
    let hashes: u64 = if k0 < 2 {
        2
    } else if k0 > 200 {
        200
    } else {
        k0
    };
    (bits as usize, hashes as u32)
}

/// The threat index: exact set plus approximate filter.
pub struct ThreatIndex {
    exact: Vec<Vec<u8>>,
    filter: bloom::BloomFilter,
    num_bits: usize,
    num_hashes: u32,
}

impl ThreatIndex {
    /// The name is in the threat set.
    pub closed spec fn spec_contains(&self, n: Seq<u8>) -> bool {
        set_has(self.exact@, n)
    }

    /// How many names the exact set holds.
    pub closed spec fn spec_len(&self) -> int {
        self.exact@.len() as int
    }

    /// Coupling invariant: every exact member's digest is possibly
    /// present in the filter, members are unique, and the filter is
    /// usable.
    pub closed spec fn wf(&self) -> bool {
        &&& bloom_bits(self.filter) >= 1
        &&& self.num_bits >= 1
        &&& self.num_hashes >= 1
        &&& forall|i: int|
            0 <= i < self.exact@.len() ==> bloom_items(self.filter).contains(
                sha256_of((#[trigger] self.exact@[i])@),
            )
        &&& forall|i: int, j: int|
            0 <= i < j < self.exact@.len() ==> (#[trigger] self.exact@[i])@ != (
            #[trigger] self.exact@[j])@
    }

    /// An empty index with the given filter geometry.
    pub fn new(num_bits: usize, num_hashes: u32) -> (r: ThreatIndex)
        requires
            num_bits >= 1,
            num_hashes >= 1,
        ensures
            r.wf(),
            r.spec_len() == 0,
            forall|n: Seq<u8>| !r.spec_contains(n),
    {
        ThreatIndex {
            exact: Vec::new(),
            filter: bloom_new(num_bits, num_hashes),
            num_bits,
            num_hashes,
        }
    }

    /// How many names are indexed.
    pub fn len(&self) -> (r: usize)
        ensures
            r == self.spec_len(),
    {
        self.exact.len()
    }

    /// Exact membership: a negative filter probe answers fast, a positive
    /// one falls back to the exact set, so the answer has no false
    /// positives and no false negatives.
    pub fn contains(&self, name: &Vec<u8>) -> (r: bool)
        requires
            self.wf(),
        ensures
            r == self.spec_contains(name@),
    {
        let h = sha256(name);
        if !bloom_contains(&self.filter, &h) {
            proof {
                if self.spec_contains(name@) {
                    let i = choose|i: int|
                        0 <= i < self.exact@.len() && (#[trigger] self.exact@[i])@ == name@;
                    assert(bloom_items(self.filter).contains(sha256_of(self.exact@[i]@)));
                }
            }
            return false;
        }
        let mut i: usize = 0;
        while i < self.exact.len()
            invariant
                i <= self.exact@.len(),
                forall|j: int| 0 <= j < i ==> (#[trigger] self.exact@[j])@ != name@,
            decreases self.exact@.len() - i,
        {
            if bytes_eq(&self.exact[i], name) {
                return true;
            }
            i += 1;
        }
        false
    }

    /// The filter geometry, kept across updates.
    pub closed spec fn spec_geometry(&self) -> (int, int) {
        (self.num_bits as int, self.num_hashes as int)
    }

    /// Insert a name into the exact set and the filter. Once `add`
    /// returns, `contains` answers true for the name.
    pub fn add(&mut self, name: &Vec<u8>)
        requires
            old(self).wf(),
        ensures
            final(self).wf(),
            final(self).spec_contains(name@),
            final(self).spec_geometry() == old(self).spec_geometry(),
            forall|n: Seq<u8>|
                final(self).spec_contains(n) == (old(self).spec_contains(n) || n == name@),
    {
        if self.contains(name) {
            return ;
        }
        let h = sha256(name);
        bloom_insert(&mut self.filter, &h);
        let ghost pre = *self;
        self.exact.push(clone_bytes(name));
        proof {
            assert(pre.exact@ == old(self).exact@);
            assert(self.exact@[self.exact@.len() - 1]@ == name@);
            assert forall|n: Seq<u8>| self.spec_contains(n) == (old(self).spec_contains(n) || n
                == name@) by {
                if set_has(self.exact@, n) {
                    let i = choose|i: int|
                        0 <= i < self.exact@.len() && (#[trigger] self.exact@[i])@ == n;
                    if i < pre.exact@.len() {
                        assert(pre.exact@[i]@ == n);
                        assert(set_has(old(self).exact@, n));
                    } else {
                        assert(n == name@);
                    }
                }
                if set_has(old(self).exact@, n) {
                    let i = choose|i: int|
                        0 <= i < old(self).exact@.len() && (#[trigger] old(self).exact@[i])@ == n;
                    assert(self.exact@[i]@ == n);
                    assert(set_has(self.exact@, n));
                }
                if n == name@ {
                    assert(set_has(self.exact@, n));
                }
            }
            assert forall|i: int, j: int| 0 <= i < j < self.exact@.len() implies (
            #[trigger] self.exact@[i])@ != (#[trigger] self.exact@[j])@ by {
                if j == self.exact@.len() - 1 {
                    assert(self.exact@[i]@ != name@);
                }
            }
            assert(self.spec_contains(name@));
        }
    }

    /// Remove a name from the exact set and rebuild the filter, which
    /// supports insertion only.
    pub fn remove(&mut self, name: &Vec<u8>)
        requires
            old(self).wf(),
        ensures
            final(self).wf(),
            !final(self).spec_contains(name@),
            forall|n: Seq<u8>|
                final(self).spec_contains(n) == (old(self).spec_contains(n) && n != name@),
    {
        let ghost pre = *self;
        let mut i: usize = 0;
        let mut found = false;
        let mut idx: usize = 0;
        let n_len = self.exact.len();
        while i < n_len
            invariant
                *self == pre,
                n_len == self.exact@.len(),
                i <= n_len,
                found ==> idx < i && self.exact@[idx as int]@ == name@,
                !found ==> forall|j: int| 0 <= j < i ==> (#[trigger] self.exact@[j])@ != name@,
            decreases n_len - i,
        {
            if !found && bytes_eq(&self.exact[i], name) {
                found = true;
                idx = i;
            }
            i += 1;
        }
        if found {
            self.exact.remove(idx);
            proof {
                assert forall|a: int, b: int| 0 <= a < b < self.exact@.len() implies (
                #[trigger] self.exact@[a])@ != (#[trigger] self.exact@[b])@ by {
                    let ja = if a < idx {
                        a
                    } else {
                        a + 1
                    };
                    let jb = if b < idx {
                        b
                    } else {
                        b + 1
                    };
                    assert(self.exact@[a] == pre.exact@[ja]);
                    assert(self.exact@[b] == pre.exact@[jb]);
                }
            }
            self.rebuild_filter();
            proof {
                assert forall|n: Seq<u8>| self.spec_contains(n) == (pre.spec_contains(n)
                    && n != name@) by {
                    if set_has(self.exact@, n) {
                        let i2 = choose|i2: int|
                            0 <= i2 < self.exact@.len() && (#[trigger] self.exact@[i2])@ == n;
                        let js = if i2 < idx {
                            i2
                        } else {
                            i2 + 1
                        };
                        assert(pre.exact@[js]@ == n);
                        assert(js != idx);
                        assert(pre.exact@[idx as int]@ == name@);
                        if n == name@ {
                            assert(pre.exact@[js]@ == pre.exact@[idx as int]@);
                        }
                    }
                    if set_has(pre.exact@, n) && n != name@ {
                        let i2 = choose|i2: int|
                            0 <= i2 < pre.exact@.len() && (#[trigger] pre.exact@[i2])@ == n;
                        assert(i2 != idx);
                        let jt = if i2 < idx {
                            i2
                        } else {
                            i2 - 1
                        };
                        assert(self.exact@[jt] == pre.exact@[i2]);
                    }
                }
            }
        } else {
            proof {
                assert forall|n: Seq<u8>| self.spec_contains(n) == (pre.spec_contains(n)
                    && n != name@) by {
                    if set_has(pre.exact@, n) && n == name@ {
                        let i2 = choose|i2: int|
                            0 <= i2 < pre.exact@.len() && (#[trigger] pre.exact@[i2])@ == n;
                    }
                }
            }
        }
    }

    /// Rebuild the filter from the exact set.
    fn rebuild_filter(&mut self)
        requires
            old(self).num_bits >= 1,
            old(self).num_hashes >= 1,
            forall|i: int, j: int|
                0 <= i < j < old(self).exact@.len() ==> (#[trigger] old(self).exact@[i])@ != (
                #[trigger] old(self).exact@[j])@,
        ensures
            final(self).wf(),
            final(self).exact@ == old(self).exact@,
            final(self).num_bits == old(self).num_bits,
            final(self).num_hashes == old(self).num_hashes,
    {
        self.filter = bloom_new(self.num_bits, self.num_hashes);
        let mut i: usize = 0;
        while i < self.exact.len()
            invariant
                self.exact@ == old(self).exact@,
                self.num_bits == old(self).num_bits,
                self.num_hashes == old(self).num_hashes,
                self.num_bits >= 1,
                self.num_hashes >= 1,
                forall|a: int, b: int|
                    0 <= a < b < self.exact@.len() ==> (#[trigger] self.exact@[a])@ != (
                    #[trigger] self.exact@[b])@,
                bloom_bits(self.filter) >= 1,
                i <= self.exact@.len(),
                forall|j: int|
                    0 <= j < i ==> bloom_items(self.filter).contains(
                        sha256_of((#[trigger] self.exact@[j])@),
                    ),
            decreases self.exact@.len() - i,
        {
            let h = sha256(&self.exact[i]);
            bloom_insert(&mut self.filter, &h);
            i += 1;
        }
    }

    /// Atomically replace the whole index with a freshly built pair over
    /// the given names. Afterwards exactly the given names are contained.
    pub fn replace_all(&mut self, names: &Vec<Vec<u8>>)
        requires
            old(self).wf(),
        ensures
            final(self).wf(),
            forall|n: Seq<u8>| final(self).spec_contains(n) == set_has(names@, n),
    {
        self.exact = Vec::new();
        let mut i: usize = 0;
        while i < names.len()
            invariant
                self.num_bits == old(self).num_bits,
                self.num_hashes == old(self).num_hashes,
                self.num_bits >= 1,
                self.num_hashes >= 1,
                bloom_bits(self.filter) >= 1,
                i <= names@.len(),
                forall|a: int, b: int|
                    0 <= a < b < self.exact@.len() ==> (#[trigger] self.exact@[a])@ != (
                    #[trigger] self.exact@[b])@,
                forall|j: int|
                    0 <= j < self.exact@.len() ==> bloom_items(self.filter).contains(
                        sha256_of((#[trigger] self.exact@[j])@),
                    ),
                forall|n: Seq<u8>| set_has(self.exact@, n) == set_has(names@.take(i as int), n),
            decreases names@.len() - i,
        {
            let ghost pre = *self;
            self.add(&names[i]);
            i += 1;
            proof {
                assert forall|n: Seq<u8>| set_has(self.exact@, n) == set_has(
                    names@.take(i as int),
                    n,
                ) by {
                    assert(self.spec_contains(n) == (pre.spec_contains(n) || n == names@[i
                        - 1]@));
                    if set_has(names@.take(i as int), n) {
                        let j = choose|j: int|
                            0 <= j < i && (#[trigger] names@.take(i as int)[j])@ == n;
                        if j < i - 1 {
                            assert(names@.take(i as int - 1)[j]@ == n);
                            assert(set_has(names@.take(i as int - 1), n));
                        }
                    }
                    if set_has(names@.take(i as int - 1), n) {
                        let j = choose|j: int|
                            0 <= j < i - 1 && (#[trigger] names@.take(i as int - 1)[j])@ == n;
                        assert(names@.take(i as int)[j]@ == n);
                    }
                    if n == names@[i - 1]@ {
                        assert(names@.take(i as int)[i - 1]@ == n);
                    }
                }
            }
        }
        proof {
            assert(names@.take(names@.len() as int) =~= names@);
        }
    }
}

/// The names the index starts with before the first feed load.
pub fn default_threats() -> (r: Vec<Vec<u8>>)
    ensures
        r@.len() == 10,
        r@[0]@ == crate::features::ascii_seq("malware.com"@),
        r@[1]@ == crate::features::ascii_seq("phishing.net"@),
        r@[2]@ == crate::features::ascii_seq("spam.org"@),
        r@[3]@ == crate::features::ascii_seq("trojan.info"@),
        r@[4]@ == crate::features::ascii_seq("virus.biz"@),
        r@[5]@ == crate::features::ascii_seq("scam.co"@),
        r@[6]@ == crate::features::ascii_seq("fake-bank.com"@),
        r@[7]@ == crate::features::ascii_seq("phish-paypal.tk"@),
        r@[8]@ == crate::features::ascii_seq("malicious-site.ml"@),
        r@[9]@ == crate::features::ascii_seq("dangerous-download.cf"@),
{
    proof {
        reveal_strlit("malware.com");
        reveal_strlit("phishing.net");
        reveal_strlit("spam.org");
        reveal_strlit("trojan.info");
        reveal_strlit("virus.biz");
        reveal_strlit("scam.co");
        reveal_strlit("fake-bank.com");
        reveal_strlit("phish-paypal.tk");
        reveal_strlit("malicious-site.ml");
        reveal_strlit("dangerous-download.cf");
    }
    let mut r: Vec<Vec<u8>> = Vec::new();
    r.push(crate::features::str_bytes("malware.com"));
    r.push(crate::features::str_bytes("phishing.net"));
    r.push(crate::features::str_bytes("spam.org"));
    r.push(crate::features::str_bytes("trojan.info"));
    r.push(crate::features::str_bytes("virus.biz"));
    r.push(crate::features::str_bytes("scam.co"));
    r.push(crate::features::str_bytes("fake-bank.com"));
    r.push(crate::features::str_bytes("phish-paypal.tk"));
    r.push(crate::features::str_bytes("malicious-site.ml"));
    r.push(crate::features::str_bytes("dangerous-download.cf"));
    r
}

} // verus!
