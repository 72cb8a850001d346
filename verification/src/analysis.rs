//! Standalone domain risk analysis for the admin surface: a coarse
//! centi-unit risk score over shape, keywords, entropy and the top-level
//! domain, with a category and advisory recommendations.

use vstd::prelude::*;
use vstd::string::StringExecFns;
use crate::entropy::{entropy_milli, spec_entropy_milli};
use crate::features::{
    ascii_seq, count_class, find_infix, has_infix, str_bytes,
    ByteClass, spec_subdomain_count,
};
use crate::name::{Name, DOT, bytes_eq};
use crate::typo::clone_bytes;

verus! {

/// The bytes after the last dot; the whole name when it has no dot.
pub open spec fn last_label(s: Seq<u8>) -> Seq<u8>
    decreases s.len(),
{
    if s.len() == 0 {
        s
    } else if s.last() == DOT {
        Seq::empty()
    } else {
        last_label(s.drop_last()).push(s.last())
    }
}

/// The suffix after the last dot is the last label.
proof fn lemma_last_label(s: Seq<u8>, i: int)
    requires
        0 <= i <= s.len(),
        forall|k: int| i <= k < s.len() ==> s[k] != DOT,
        i > 0 ==> s[i - 1] == DOT,
    ensures
        last_label(s) == s.subrange(i, s.len() as int),
    decreases s.len(),
{
    if i == s.len() {
        if s.len() > 0 {
            assert(s.last() == DOT);
            assert(last_label(s) =~= s.subrange(i, s.len() as int));
        } else {
            assert(last_label(s) =~= s.subrange(i, s.len() as int));
        }
    } else {
        assert(s.last() != DOT);
        lemma_last_label(s.drop_last(), i);
        assert(s.drop_last().subrange(i, s.len() - 1) =~= s.subrange(i, s.len() - 1));
        assert(last_label(s) =~= s.subrange(i, s.len() as int));
    }
}

/// One of the flagged words occurs in the name.
pub open spec fn any_default_keyword(s: Seq<u8>) -> bool {
    ||| has_infix(s, ascii_seq("phishing"@))
    ||| has_infix(s, ascii_seq("scam"@))
    ||| has_infix(s, ascii_seq("fake"@))
    ||| has_infix(s, ascii_seq("malware"@))
    ||| has_infix(s, ascii_seq("virus"@))
}

/// The last label is one of the four free registries.
pub open spec fn risky_last_label(ll: Seq<u8>) -> bool {
    ||| ll == ascii_seq("tk"@)
    ||| ll == ascii_seq("ml"@)
    ||| ll == ascii_seq("ga"@)
    ||| ll == ascii_seq("cf"@)
}

/// The centi-unit risk score: shape, keywords, entropy and registry
/// contributions, capped at one hundred.
pub open spec fn spec_risk_centi(
    length: int,
    subdomains: int,
    keywords: bool,
    entropy_milli_v: int,
    risky_tld: bool,
) -> int {
    let raw = (if length > 50 {
        30int
    } else if length < 5 {
        20int
    } else {
        0int
    }) + (if subdomains > 3 {
        40int
    } else {
        0int
    }) + (if keywords {
        80int
    } else {
        0int
    }) + (if entropy_milli_v > 3500 {
        30int
    } else {
        0int
    }) + (if risky_tld {
        40int
    } else {
        0int
    });
    if raw > 100 {
        100
    } else {
        raw
    }
}

/// The advisory notes for a score: block advice, the keyword and
/// subdomain observations, or a clean bill.
pub open spec fn spec_recommendations(risk: int, keywords: bool, subdomains: int) -> Seq<
    Seq<char>,
> {
    let base = (if risk > 50 {
        seq!["Consider blocking this domain"@]
    } else {
        Seq::<Seq<char>>::empty()
    }) + (if keywords {
        seq!["Domain contains suspicious keywords"@]
    } else {
        Seq::<Seq<char>>::empty()
    }) + (if subdomains > 3 {
        seq!["High number of subdomains detected"@]
    } else {
        Seq::<Seq<char>>::empty()
    });
    if base.len() == 0 {
        seq!["Domain appears safe"@]
    } else {
        base
    }
}

/// The per-name figures the analysis reads.
pub struct DomainFeatures {
    pub length: usize,
    pub subdomain_count: usize,
    pub has_suspicious_keywords: bool,
    pub entropy_milli: u64,
    pub tld: Vec<u8>,
}

/// The analysis of one name.
pub struct DomainAnalysis {
    pub domain: Vec<u8>,
    pub category: String,
    pub risk_score_centi: u32,
    pub features: DomainFeatures,
    pub recommendations: Vec<String>,
}

/// The standalone analyzer.
pub struct DomainAnalyzer;

impl DomainAnalyzer {
    pub fn new() -> (r: DomainAnalyzer) {
        DomainAnalyzer
    }

    /// Analyze a normalized name: exact features, the exact centi-unit
    /// risk score, its category, and the advisory notes.
    pub fn analyze(&self, domain: &Name) -> (r: DomainAnalysis)
        requires
            domain.wf(),
        ensures
            r.domain@ == domain@,
            r.features.length == domain@.len(),
            r.features.subdomain_count == spec_subdomain_count(domain@),
            r.features.has_suspicious_keywords == any_default_keyword(domain@),
            r.features.entropy_milli == spec_entropy_milli(domain@),
            r.features.tld@ == last_label(domain@),
            r.risk_score_centi == spec_risk_centi(
                domain@.len() as int,
                spec_subdomain_count(domain@) as int,
                any_default_keyword(domain@),
                spec_entropy_milli(domain@) as int,
                risky_last_label(last_label(domain@)),
            ),
            (r.category@ == "High Risk"@) == (r.risk_score_centi > 70),
            (r.category@ == "Medium Risk"@) == (40 < r.risk_score_centi <= 70),
            (r.category@ == "Low Risk"@) == (r.risk_score_centi <= 40),
            r.recommendations.deep_view() == spec_recommendations(
                r.risk_score_centi as int,
                any_default_keyword(domain@),
                spec_subdomain_count(domain@) as int,
            ),
    {
        proof {
            reveal_strlit("phishing");
            reveal_strlit("scam");
            reveal_strlit("fake");
            reveal_strlit("malware");
            reveal_strlit("virus");
            reveal_strlit("tk");
            reveal_strlit("ml");
            reveal_strlit("ga");
            reveal_strlit("cf");
            reveal_strlit("High Risk");
            reveal_strlit("Medium Risk");
            reveal_strlit("Low Risk");
            assert(("High Risk"@).len() == 9);
            assert(("Medium Risk"@).len() == 11);
            assert(("Low Risk"@).len() == 8);
        }
        let s = domain.as_bytes();
        let n = s.len();
        // shape
        let dots = count_class(s, ByteClass::Dot);
        let labels = dots + 1;
        let subdomain_count = if labels > 2 {
            labels - 2
        } else {
            0
        };
        // keywords
        let kw = find_infix(s, &str_bytes("phishing")) || find_infix(s, &str_bytes("scam"))
            || find_infix(s, &str_bytes("fake")) || find_infix(s, &str_bytes("malware"))
            || find_infix(s, &str_bytes("virus"));
        // entropy
        let ent = entropy_milli(s);
        // last label
        let mut i: usize = n;
        while i > 0 && s[i - 1] != DOT
            invariant
                n == s@.len(),
                i <= n,
                forall|k: int| i <= k < n ==> s@[k] != DOT,
            decreases i,
        {
            i -= 1;
        }
        let mut tld: Vec<u8> = Vec::new();
        let mut j: usize = i;
        while j < n
            invariant
                n == s@.len(),
                i <= j <= n,
                tld@ == s@.subrange(i as int, j as int),
            decreases n - j,
        {
            tld.push(s[j]);
            j += 1;
            proof {
                assert(tld@ =~= s@.subrange(i as int, j as int));
            }
        }
        proof {
            lemma_last_label(s@, i as int);
        }
        let risky = bytes_eq(&tld, &str_bytes("tk")) || bytes_eq(&tld, &str_bytes("ml"))
            || bytes_eq(&tld, &str_bytes("ga")) || bytes_eq(&tld, &str_bytes("cf"));
        // score
        let mut raw: u32 = 0;
        if n > 50 {
            raw += 30;
        } else if n < 5 {
            raw += 20;
        }
        if subdomain_count > 3 {
            raw += 40;
        }
        if kw {
            raw += 80;
        }
        if ent > 3500 {
            raw += 30;
        }
        if risky {
            raw += 40;
        }
        let risk: u32 = if raw > 100 {
            100
        } else {
            raw
        };
        let category = if risk > 70 {
            String::from_str("High Risk")
        } else if risk > 40 {
            String::from_str("Medium Risk")
        } else {
            String::from_str("Low Risk")
        };
        let mut recommendations: Vec<String> = Vec::new();
        if risk > 50 {
            recommendations.push(String::from_str("Consider blocking this domain"));
        }
        if kw {
            recommendations.push(String::from_str("Domain contains suspicious keywords"));
        }
        if subdomain_count > 3 {
            recommendations.push(String::from_str("High number of subdomains detected"));
        }
        if recommendations.len() == 0 {
            recommendations.push(String::from_str("Domain appears safe"));
        }
        proof {
            assert(recommendations.deep_view() =~= spec_recommendations(
                risk as int,
                any_default_keyword(domain@),
                spec_subdomain_count(domain@) as int,
            ));
        }
        DomainAnalysis {
            domain: clone_bytes(s),
            category,
            risk_score_centi: risk,
            features: DomainFeatures {
                length: n,
                subdomain_count,
                has_suspicious_keywords: kw,
                entropy_milli: ent,
                tld,
            },
            recommendations,
        }
    }
}

} // verus!
