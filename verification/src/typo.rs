//! Bounded edit-distance lookup against a known-good list.
//!
//! The distance is the textbook Levenshtein recurrence; the executable
//! dynamic program is proved equal to it. A suggestion is the unique
//! candidate at minimum distance, provided that distance stays within
//! `max(1, max(len)/3)`; ties yield no suggestion.

use vstd::prelude::*;
use vstd::string::StrSliceExecFns;
use crate::features::{ascii_seq, str_bytes};

verus! {

broadcast use vstd::string::is_ascii_spec_bytes;

pub open spec fn min3(x: nat, y: nat, z: nat) -> nat {
    if x <= y && x <= z {
        x
    } else if y <= z {
        y
    } else {
        z
    }
}

/// Levenshtein distance between two byte strings.
pub open spec fn lev(a: Seq<u8>, b: Seq<u8>) -> nat
    decreases a.len() + b.len(),
{
    if a.len() == 0 {
        b.len()
    } else if b.len() == 0 {
        a.len()
    } else {
        let c: nat = if a.last() == b.last() {
            0
        } else {
            1
        };
        min3(lev(a.drop_last(), b) + 1, lev(a, b.drop_last()) + 1, lev(a.drop_last(), b.drop_last()) + c)
    }
}

/// The distance never exceeds the summed lengths.
pub proof fn lemma_lev_le_sum(a: Seq<u8>, b: Seq<u8>)
    ensures
        lev(a, b) <= a.len() + b.len(),
    decreases a.len() + b.len(),
{
    if a.len() > 0 && b.len() > 0 {
        lemma_lev_le_sum(a.drop_last(), b.drop_last());
    }
}

/// The DP recurrence over prefixes.
proof fn lemma_lev_step(a: Seq<u8>, b: Seq<u8>, i: int, j: int)
    requires
        0 <= i < a.len(),
        0 <= j < b.len(),
    ensures
        lev(a.take(i + 1), b.take(j + 1)) == min3(
            lev(a.take(i), b.take(j + 1)) + 1,
            lev(a.take(i + 1), b.take(j)) + 1,
            lev(a.take(i), b.take(j)) + if a[i] == b[j] {
                0nat
            } else {
                1nat
            },
        ),
{
    let a1 = a.take(i + 1);
    let b1 = b.take(j + 1);
    assert(a1.drop_last() =~= a.take(i));
    assert(b1.drop_last() =~= b.take(j));
    assert(a1.last() == a[i]);
    assert(b1.last() == b[j]);
}

/// An empty prefix is at distance of the other prefix's length.
proof fn lemma_lev_empty(a: Seq<u8>, b: Seq<u8>, j: int)
    requires
        0 <= j <= b.len(),
    ensures
        lev(a.take(0), b.take(j)) == j,
        lev(b.take(j), a.take(0)) == j,
{
    assert(a.take(0).len() == 0);
    assert(b.take(j).len() == j);
}

fn min3_exec(x: usize, y: usize, z: usize) -> (r: usize)
    ensures
        r == min3(x as nat, y as nat, z as nat),
{
    if x <= y && x <= z {
        x
    } else if y <= z {
        y
    } else {
        z
    }
}

/// The allowed distance for a suggestion: a third of the longer string,
/// at least one.
pub open spec fn suggestion_bound(q: Seq<u8>, c: Seq<u8>) -> nat {
    let m = if q.len() >= c.len() {
        q.len()
    } else {
        c.len()
    };
    if m / 3 >= 1 {
        m / 3
    } else {
        1
    }
}

/// Candidate `i` is strictly closest to `q` and within its bound.
pub open spec fn strictly_best(ds: Seq<Seq<u8>>, q: Seq<u8>, i: int) -> bool {
    &&& 0 <= i < ds.len()
    &&& lev(q, ds[i]) <= suggestion_bound(q, ds[i])
    &&& forall|j: int| 0 <= j < ds.len() && j != i ==> lev(q, #[trigger] ds[j]) > lev(q, ds[i])
}

/// The typo corrector and its known-good list.
pub struct TypoCorrector {
    common_domains: Vec<Vec<u8>>,
}

impl TypoCorrector {
    /// The candidate names, as sequences.
    pub closed spec fn domains(&self) -> Seq<Seq<u8>> {
        self.common_domains@.map_values(|v: Vec<u8>| v@)
    }

    /// Every candidate is short enough for bounded arithmetic.
    pub closed spec fn wf(&self) -> bool {
        forall|i: int| 0 <= i < self.domains().len() ==> (#[trigger] self.domains()[i]).len() <= 253
    }

    /// Build the corrector over the built-in known-good list.
    pub fn new() -> (r: TypoCorrector)
        ensures
            r.wf(),
            r.domains().len() == 10,
            r.domains()[0] == ascii_seq("google.com"@),
            r.domains()[1] == ascii_seq("facebook.com"@),
            r.domains()[2] == ascii_seq("twitter.com"@),
            r.domains()[3] == ascii_seq("instagram.com"@),
            r.domains()[4] == ascii_seq("youtube.com"@),
            r.domains()[5] == ascii_seq("amazon.com"@),
            r.domains()[6] == ascii_seq("microsoft.com"@),
            r.domains()[7] == ascii_seq("apple.com"@),
            r.domains()[8] == ascii_seq("netflix.com"@),
            r.domains()[9] == ascii_seq("linkedin.com"@),
    {
        proof {
            reveal_strlit("google.com");
            reveal_strlit("facebook.com");
            reveal_strlit("twitter.com");
            reveal_strlit("instagram.com");
            reveal_strlit("youtube.com");
            reveal_strlit("amazon.com");
            reveal_strlit("microsoft.com");
            reveal_strlit("apple.com");
            reveal_strlit("netflix.com");
            reveal_strlit("linkedin.com");
        }
        let mut v: Vec<Vec<u8>> = Vec::new();
        v.push(str_bytes("google.com"));
        v.push(str_bytes("facebook.com"));
        v.push(str_bytes("twitter.com"));
        v.push(str_bytes("instagram.com"));
        v.push(str_bytes("youtube.com"));
        v.push(str_bytes("amazon.com"));
        v.push(str_bytes("microsoft.com"));
        v.push(str_bytes("apple.com"));
        v.push(str_bytes("netflix.com"));
        v.push(str_bytes("linkedin.com"));
        let r = TypoCorrector { common_domains: v };
        proof {
            assert forall|i: int| 0 <= i < r.domains().len() implies (
            #[trigger] r.domains()[i]).len() <= 253 by {
                assert(r.domains()[i] == r.common_domains@[i]@);
            }
        }
        r
    }

    /// Levenshtein distance by dynamic programming over prefix rows.
    pub fn levenshtein_distance(&self, s1: &Vec<u8>, s2: &Vec<u8>) -> (d: usize)
        requires
            s1@.len() + s2@.len() < usize::MAX,
        ensures
            d == lev(s1@, s2@),
    {
        let n1 = s1.len();
        let n2 = s2.len();
        let ghost total = s1@.len() + s2@.len();
        // row for the empty prefix of s1
        let mut prev: Vec<usize> = Vec::new();
        let mut j: usize = 0;
        while j <= n2
            invariant
                n2 == s2@.len(),
                j <= n2 + 1,
                n2 < usize::MAX,
                prev@.len() == j,
                forall|k: int| 0 <= k < j ==> prev@[k] == lev(s1@.take(0), s2@.take(k)),
            decreases n2 + 1 - j,
        {
            proof {
                lemma_lev_empty(s1@, s2@, j as int);
            }
            prev.push(j);
            j += 1;
        }
        let mut i: usize = 0;
        while i < n1
            invariant
                n1 == s1@.len(),
                n2 == s2@.len(),
                total == n1 + n2,
                total < usize::MAX,
                i <= n1,
                prev@.len() == n2 + 1,
                forall|k: int|
                    0 <= k <= n2 ==> prev@[k] == lev(s1@.take(i as int), s2@.take(k)),
            decreases n1 - i,
        {
            let mut cur: Vec<usize> = Vec::new();
            proof {
                lemma_lev_empty(s2@, s1@, i as int + 1);
                assert(lev(s1@.take(i as int + 1), s2@.take(0)) == i + 1);
            }
            cur.push(i + 1);
            let mut j: usize = 0;
            while j < n2
                invariant
                    n1 == s1@.len(),
                    n2 == s2@.len(),
                    total == n1 + n2,
                    total < usize::MAX,
                    i < n1,
                    j <= n2,
                    prev@.len() == n2 + 1,
                    forall|k: int|
                        0 <= k <= n2 ==> prev@[k] == lev(s1@.take(i as int), s2@.take(k)),
                    cur@.len() == j + 1,
                    forall|k: int|
                        0 <= k <= j ==> cur@[k] == lev(s1@.take(i as int + 1), s2@.take(k)),
                decreases n2 - j,
            {
                proof {
                    lemma_lev_step(s1@, s2@, i as int, j as int);
                    lemma_lev_le_sum(s1@.take(i as int), s2@.take(j as int + 1));
                    lemma_lev_le_sum(s1@.take(i as int + 1), s2@.take(j as int));
                    lemma_lev_le_sum(s1@.take(i as int), s2@.take(j as int));
                }
                let cost_eq = s1[i] == s2[j];
                let del = prev[j + 1] + 1;
                let ins = cur[j] + 1;
                let sub = if cost_eq {
                    prev[j]
                } else {
                    prev[j] + 1
                };
                let v = min3_exec(del, ins, sub);
                cur.push(v);
                j += 1;
            }
            prev = cur;
            i += 1;
        }
        proof {
            assert(s1@.take(n1 as int) =~= s1@);
            assert(s2@.take(n2 as int) =~= s2@);
        }
        prev[n2]
    }

    /// The closest known-good name, when it is unique and within the
    /// bound; ties or distance beyond the bound yield nothing.
    pub fn suggest(&self, domain: &Vec<u8>) -> (r: Option<Vec<u8>>)
        requires
            self.wf(),
            domain@.len() <= 253,
        ensures
            r matches Some(c) ==> exists|i: int|
                strictly_best(self.domains(), domain@, i) && c@ == self.domains()[i],
            r is None ==> forall|i: int| !strictly_best(self.domains(), domain@, i),
    {
        let ghost ds = self.domains();
        let n = self.common_domains.len();
        if n == 0 {
            return None;
        }
        proof {
            assert(ds[0] == self.common_domains@[0]@);
        }
        let mut best_i: usize = 0;
        let mut best_d: usize = self.levenshtein_distance(domain, &self.common_domains[0]);
        let mut tie = false;
        let mut i: usize = 1;
        while i < n
            invariant
                self.wf(),
                domain@.len() <= 253,
                ds == self.domains(),
                n == ds.len(),
                1 <= i <= n,
                best_i < i,
                best_d == lev(domain@, ds[best_i as int]),
                forall|j: int| 0 <= j < i ==> lev(domain@, #[trigger] ds[j]) >= best_d,
                tie == exists|j: int|
                    0 <= j < i && j != best_i && lev(domain@, #[trigger] ds[j]) == best_d,
            decreases n - i,
        {
            proof {
                assert(ds[i as int] == self.common_domains@[i as int]@);
            }
            let d = self.levenshtein_distance(domain, &self.common_domains[i]);
            if d < best_d {
                best_i = i;
                best_d = d;
                tie = false;
            } else if d == best_d {
                tie = true;
            }
            i += 1;
        }
        // the bound of the best candidate
        proof {
            assert(ds[best_i as int] == self.common_domains@[best_i as int]@);
        }
        let cand = &self.common_domains[best_i];
        let m = if domain.len() >= cand.len() {
            domain.len()
        } else {
            cand.len()
        };
        let bound = if m / 3 >= 1 {
            m / 3
        } else {
            1
        };
        if !tie && best_d <= bound {
            proof {
                assert(strictly_best(ds, domain@, best_i as int));
            }
            Some(clone_bytes(cand))
        } else {
            proof {
                assert forall|j: int| !strictly_best(ds, domain@, j) by {
                    if 0 <= j < ds.len() {
                        if j == best_i {
                            if tie {
                                let k = choose|k: int|
                                    0 <= k < n && k != best_i && lev(domain@, #[trigger] ds[k])
                                        == best_d;
                                assert(lev(domain@, ds[k]) == lev(domain@, ds[j]));
                            }
                        } else {
                            assert(lev(domain@, ds[j]) >= lev(domain@, ds[best_i as int]));
                        }
                    }
                }
            }
            None
        }
    }
}

/// Copy a byte vector.
pub fn clone_bytes(v: &Vec<u8>) -> (r: Vec<u8>)
    ensures
        r@ == v@,
{
    let mut out: Vec<u8> = Vec::new();
    let mut i: usize = 0;
    while i < v.len()
        invariant
            i <= v@.len(),
            out@ == v@.take(i as int),
        decreases v@.len() - i,
    {
        out.push(v[i]);
        i += 1;
        proof {
            assert(out@ =~= v@.take(i as int));
        }
    }
    proof {
        assert(out@ =~= v@);
    }
    out
}

/// Candidate `i` lies within its suggestion bound of `q`.
pub open spec fn within_bound(ds: Seq<Seq<u8>>, q: Seq<u8>, i: int) -> bool {
    0 <= i < ds.len() && lev(q, ds[i]) <= suggestion_bound(q, ds[i])
}

/// `v` is some candidate within its bound of `q`.
pub open spec fn is_suggestion_of(ds: Seq<Seq<u8>>, q: Seq<u8>, v: Seq<u8>) -> bool {
    exists|i: int| within_bound(ds, q, i) && v == #[trigger] ds[i]
}

/// A correction report: the original, up to three candidates within
/// their bounds ordered closest-first, and a confidence.
pub struct TypoCorrection {
    pub original: Vec<u8>,
    pub suggestions: Vec<Vec<u8>>,
    pub confidence_milli: u32,
}

impl TypoCorrector {
    /// Up to three known-good names within the edit-distance bound,
    /// closest first; confidence 0.8 when any was found, 0 otherwise.
    pub fn correct(&self, domain: &Vec<u8>) -> (r: TypoCorrection)
        requires
            self.wf(),
            domain@.len() <= 253,
        ensures
            r.original@ == domain@,
            r.suggestions@.len() <= 3,
            forall|k: int|
                0 <= k < r.suggestions@.len() ==> is_suggestion_of(
                    self.domains(),
                    domain@,
                    (#[trigger] r.suggestions@[k])@,
                ),
            forall|k1: int, k2: int|
                0 <= k1 < k2 < r.suggestions@.len() ==> lev(
                    domain@,
                    (#[trigger] r.suggestions@[k1])@,
                ) <= lev(domain@, (#[trigger] r.suggestions@[k2])@),
            (r.suggestions@.len() > 0) == exists|i: int| within_bound(self.domains(), domain@, i),
            r.confidence_milli == if r.suggestions@.len() > 0 {
                800int
            } else {
                0int
            },
    {
        let ghost ds = self.domains();
        let ghost q = domain@;
        let n = self.common_domains.len();
        let mut suggestions: Vec<Vec<u8>> = Vec::new();
        let mut d: usize = 0;
        while d <= 84
            invariant
                self.wf(),
                domain@.len() <= 253,
                ds == self.domains(),
                q == domain@,
                n == ds.len(),
                d <= 85,
                suggestions@.len() <= 3,
                forall|k: int|
                    0 <= k < suggestions@.len() ==> is_suggestion_of(
                        ds,
                        q,
                        (#[trigger] suggestions@[k])@,
                    ),
                forall|k: int|
                    0 <= k < suggestions@.len() ==> lev(q, (#[trigger] suggestions@[k])@) < d,
                forall|k1: int, k2: int|
                    0 <= k1 < k2 < suggestions@.len() ==> lev(
                        q,
                        (#[trigger] suggestions@[k1])@,
                    ) <= lev(q, (#[trigger] suggestions@[k2])@),
                suggestions@.len() == 0 ==> forall|i: int|
                    within_bound(ds, q, i) ==> lev(q, ds[i]) >= d,
            decreases 85 - d,
        {
            let mut i: usize = 0;
            while i < n
                invariant
                    self.wf(),
                    domain@.len() <= 253,
                    ds == self.domains(),
                    q == domain@,
                    n == ds.len(),
                    d <= 84,
                    i <= n,
                    suggestions@.len() <= 3,
                    forall|k: int|
                        0 <= k < suggestions@.len() ==> is_suggestion_of(
                            ds,
                            q,
                            (#[trigger] suggestions@[k])@,
                        ),
                    forall|k: int|
                        0 <= k < suggestions@.len() ==> lev(q, (#[trigger] suggestions@[k])@)
                            <= d,
                    forall|k1: int, k2: int|
                        0 <= k1 < k2 < suggestions@.len() ==> lev(
                            q,
                            (#[trigger] suggestions@[k1])@,
                        ) <= lev(q, (#[trigger] suggestions@[k2])@),
                    suggestions@.len() == 0 ==> forall|ii: int|
                        within_bound(ds, q, ii) ==> lev(q, ds[ii]) >= d,
                    suggestions@.len() == 0 ==> forall|ii: int|
                        0 <= ii < i && within_bound(ds, q, ii) ==> lev(q, ds[ii]) != d,
                decreases n - i,
            {
                proof {
                    assert(ds[i as int] == self.common_domains@[i as int]@);
                }
                if suggestions.len() < 3 {
                    let cand = &self.common_domains[i];
                    let dist = self.levenshtein_distance(domain, cand);
                    let m = if domain.len() >= cand.len() {
                        domain.len()
                    } else {
                        cand.len()
                    };
                    let bound = if m / 3 >= 1 {
                        m / 3
                    } else {
                        1
                    };
                    if dist == d && dist <= bound {
                        let ghost pre = suggestions@;
                        suggestions.push(clone_bytes(cand));
                        proof {
                            assert(within_bound(ds, q, i as int));
                            assert(suggestions@[suggestions@.len() - 1]@ == ds[i as int]);
                            assert(is_suggestion_of(ds, q, suggestions@[suggestions@.len() - 1]@));
                            assert forall|k: int| 0 <= k < suggestions@.len() implies
                                is_suggestion_of(ds, q, (#[trigger] suggestions@[k])@) by {
                                if k < suggestions@.len() - 1 {
                                    assert(suggestions@[k] == pre[k]);
                                }
                            }
                        }
                    }
                }
                i += 1;
            }
            d += 1;
        }
        let found = suggestions.len() > 0;
        proof {
            if suggestions@.len() > 0 {
                assert(is_suggestion_of(ds, q, suggestions@[0]@));
                let w = choose|i: int| within_bound(ds, q, i) && suggestions@[0]@ == ds[i];
                assert(within_bound(ds, q, w));
            }
            if exists|i: int| within_bound(ds, q, i) {
                let i = choose|i: int| within_bound(ds, q, i);
                assert(ds[i].len() <= 253);
                assert(suggestion_bound(q, ds[i]) <= 84);
                assert(lev(q, ds[i]) <= 84);
                if suggestions@.len() == 0 {
                    assert(lev(q, ds[i]) >= 85);
                }
                assert(suggestions@.len() > 0);
            }
        }
        TypoCorrection {
            original: clone_bytes(domain),
            suggestions,
            confidence_milli: if found {
                800
            } else {
                0
            },
        }
    }
}

} // verus!
