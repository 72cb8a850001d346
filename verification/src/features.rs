//! Feature extraction over normalized names.
//!
//! Pure, total functions: shape counts (length, labels, hyphens, digits,
//! vowels, longest repeat run), fixed-point Shannon entropy, and three
//! configured flags: suspicious shape patterns, brand tokens off `.com`,
//! and high-abuse top-level domains.

use vstd::prelude::*;
use vstd::string::StrSliceExecFns;
use vstd::string::StringExecFns;
use crate::entropy::{entropy_milli, spec_entropy_milli};
use crate::name::{Name, DOT};

verus! {

broadcast use vstd::string::is_ascii_spec_bytes;

/// ASCII characters as bytes.
pub open spec fn ascii_seq(s: Seq<char>) -> Seq<u8> {
    s.map_values(|c: char| c as u8)
}

/// Bytes of an ASCII string slice.
pub fn str_bytes(s: &str) -> (r: Vec<u8>)
    requires
        s.is_ascii(),
    ensures
        r@ == ascii_seq(s@),
{
    let v = s.as_bytes_vec();
    proof {
        assert(v@ =~= ascii_seq(s@));
    }
    v
}

/// Classes of bytes that the shape features count.
#[derive(Clone, Copy, PartialEq, Eq, Structural, Debug)]
pub enum ByteClass {
    Hyphen,
    Digit,
    Vowel,
    Dot,
}

pub open spec fn class_match(c: ByteClass, b: u8) -> bool {
    match c {
        ByteClass::Hyphen => b == 45,
        ByteClass::Digit => 48 <= b <= 57,
        ByteClass::Vowel => b == 97 || b == 101 || b == 105 || b == 111 || b == 117,
        ByteClass::Dot => b == DOT,
    }
}

/// How many positions of `s` fall in class `c`.
pub open spec fn count_class_spec(s: Seq<u8>, c: ByteClass) -> nat
    decreases s.len(),
{
    if s.len() == 0 {
        0
    } else {
        count_class_spec(s.drop_last(), c) + if class_match(c, s.last()) {
            1nat
        } else {
            0nat
        }
    }
}

pub proof fn lemma_count_class_le_len(s: Seq<u8>, c: ByteClass)
    ensures
        count_class_spec(s, c) <= s.len(),
    decreases s.len(),
{
    if s.len() > 0 {
        lemma_count_class_le_len(s.drop_last(), c);
    }
}

fn byte_in_class(c: ByteClass, b: u8) -> (r: bool)
    ensures
        r == class_match(c, b),
{
    match c {
        ByteClass::Hyphen => b == 45,
        ByteClass::Digit => 48 <= b && b <= 57,
        ByteClass::Vowel => b == 97 || b == 101 || b == 105 || b == 111 || b == 117,
        ByteClass::Dot => b == DOT,
    }
}

/// Count the bytes of `s` in class `c`.
pub fn count_class(s: &Vec<u8>, c: ByteClass) -> (r: usize)
    ensures
        r == count_class_spec(s@, c),
        r <= s@.len(),
{
    let mut cnt: usize = 0;
    let mut i: usize = 0;
    while i < s.len()
        invariant
            i <= s@.len(),
            cnt == count_class_spec(s@.take(i as int), c),
            cnt <= i,
        decreases s@.len() - i,
    {
        proof {
            assert(s@.take(i as int + 1).drop_last() =~= s@.take(i as int));
            assert(s@.take(i as int + 1).last() == s@[i as int]);
        }
        if byte_in_class(c, s[i]) {
            cnt += 1;
        }
        i += 1;
    }
    proof {
        assert(s@.take(s@.len() as int) =~= s@);
    }
    cnt
}

/// The pattern `p` occurs in `s` starting at position `i`.
pub open spec fn matches_at(s: Seq<u8>, p: Seq<u8>, i: int) -> bool {
    &&& 0 <= i
    &&& i + p.len() <= s.len()
    &&& forall|k: int| 0 <= k < p.len() ==> s[i + k] == #[trigger] p[k]
}

/// The pattern `p` occurs somewhere in `s`.
pub open spec fn has_infix(s: Seq<u8>, p: Seq<u8>) -> bool {
    exists|i: int| matches_at(s, p, i)
}

/// `s` ends with `p`.
pub open spec fn has_suffix(s: Seq<u8>, p: Seq<u8>) -> bool {
    p.len() <= s.len() && matches_at(s, p, s.len() - p.len())
}

/// Positions `i..i+m` of `s` are all decimal digits.
pub open spec fn digit_window(s: Seq<u8>, i: int, m: nat) -> bool {
    &&& 0 <= i
    &&& i + m <= s.len()
    &&& forall|k: int| i <= k < i + m ==> class_match(ByteClass::Digit, #[trigger] s[k])
}

/// `s` holds a run of at least `m` consecutive decimal digits.
pub open spec fn has_digit_run(s: Seq<u8>, m: nat) -> bool {
    exists|i: int| digit_window(s, i, m)
}

/// Some position in `w..w+m` is not a digit.
pub open spec fn window_broken(s: Seq<u8>, w: int, m: nat) -> bool {
    exists|k: int| w <= k < w + m && !class_match(ByteClass::Digit, #[trigger] s[k])
}

fn match_at_exec(s: &Vec<u8>, p: &Vec<u8>, i: usize) -> (r: bool)
    requires
        i + p@.len() <= s@.len(),
    ensures
        r == matches_at(s@, p@, i as int),
{
    let n = s.len();
    let mut k: usize = 0;
    while k < p.len()
        invariant
            n == s@.len(),
            i + p@.len() <= n,
            k <= p@.len(),
            forall|j: int| 0 <= j < k ==> s@[i + j] == #[trigger] p@[j],
        decreases p@.len() - k,
    {
        proof {
            assert(i + k < n);
        }
        if s[i + k] != p[k] {
            proof {
                assert(s@[i + k as int] != p@[k as int]);
            }
            return false;
        }
        k += 1;
    }
    true
}

/// Substring search.
pub fn find_infix(s: &Vec<u8>, p: &Vec<u8>) -> (r: bool)
    ensures
        r == has_infix(s@, p@),
{
    if p.len() > s.len() {
        proof {
            assert(forall|i: int| !matches_at(s@, p@, i));
        }
        return false;
    }
    if p.len() == 0 {
        proof {
            assert(matches_at(s@, p@, 0));
        }
        return true;
    }
    let last = s.len() - p.len();
    let mut i: usize = 0;
    while i <= last
        invariant
            1 <= p@.len() <= s@.len(),
            last == s@.len() - p@.len(),
            last < usize::MAX,
            i <= last + 1,
            forall|j: int| 0 <= j < i ==> !matches_at(s@, p@, j),
        decreases last + 1 - i,
    {
        if match_at_exec(s, p, i) {
            return true;
        }
        i += 1;
    }
    proof {
        assert forall|j: int| !matches_at(s@, p@, j) by {
            if 0 <= j <= last {
                assert(!matches_at(s@, p@, j));
            }
        }
    }
    false
}

/// Suffix test.
pub fn ends_with(s: &Vec<u8>, p: &Vec<u8>) -> (r: bool)
    ensures
        r == has_suffix(s@, p@),
{
    if p.len() > s.len() {
        return false;
    }
    match_at_exec(s, p, s.len() - p.len())
}

/// Scan for a run of at least `m` digits.
pub fn find_digit_run(s: &Vec<u8>, m: usize) -> (r: bool)
    requires
        m >= 1,
    ensures
        r == has_digit_run(s@, m as nat),
{
    let mut run: usize = 0;
    let mut i: usize = 0;
    while i < s.len()
        invariant
            m >= 1,
            i <= s@.len(),
            run <= i,
            run < m,
            forall|k: int| i - run <= k < i ==> class_match(ByteClass::Digit, #[trigger] s@[k]),
            run < i ==> !class_match(ByteClass::Digit, s@[i - run - 1]),
            forall|w: int| 0 <= w && w + m <= i ==> #[trigger] window_broken(s@, w, m as nat),
        decreases s@.len() - i,
    {
        if byte_in_class(ByteClass::Digit, s[i]) {
            run += 1;
            if run == m {
                proof {
                    let w = i + 1 - m;
                    assert forall|k: int| w <= k < w + m implies class_match(
                        ByteClass::Digit,
                        #[trigger] s@[k],
                    ) by {
                        if k < i {
                            assert(class_match(ByteClass::Digit, s@[k]));
                        } else {
                            assert(k == i);
                        }
                    }
                    assert(digit_window(s@, w, m as nat));
                }
                return true;
            }
        } else {
            run = 0;
        }
        i += 1;
        proof {
            assert forall|w: int| 0 <= w && w + m <= i implies #[trigger] window_broken(
                s@,
                w,
                m as nat,
            ) by {
                if w + m < i {
                    assert(window_broken(s@, w, m as nat));
                } else {
                    // the window ends exactly at the new prefix end; the byte
                    // just before the trailing digit run is not a digit
                    let k = i - run - 1;
                    assert(w <= k < w + m);
                    assert(!class_match(ByteClass::Digit, s@[k]));
                    assert(window_broken(s@, w, m as nat));
                }
            }
        }
    }
    proof {
        assert forall|j: int| !digit_window(s@, j, m as nat) by {
            if 0 <= j && j + m <= s@.len() {
                assert(window_broken(s@, j, m as nat));
                let e = choose|k: int|
                    j <= k < j + m && !class_match(ByteClass::Digit, #[trigger] s@[k]);
                assert(!class_match(ByteClass::Digit, s@[e]));
            }
        }
    }
    false
}

/// Longest run of one repeated byte, together with the trailing run.
pub open spec fn runs(s: Seq<u8>) -> (nat, nat)
    decreases s.len(),
{
    if s.len() == 0 {
        (0, 0)
    } else if s.len() == 1 {
        (1, 1)
    } else {
        let prev = runs(s.drop_last());
        let t = if s.last() == s[s.len() - 2] {
            prev.1 + 1
        } else {
            1nat
        };
        let m = if t > prev.0 {
            t
        } else {
            prev.0
        };
        (m, t)
    }
}

/// Longest run of one repeated byte in `s`.
pub open spec fn spec_max_repeat_run(s: Seq<u8>) -> nat {
    runs(s).0
}

pub proof fn lemma_runs_le_len(s: Seq<u8>)
    ensures
        runs(s).0 <= s.len(),
        runs(s).1 <= s.len(),
    decreases s.len(),
{
    if s.len() > 1 {
        lemma_runs_le_len(s.drop_last());
    }
}

/// Compute the longest repeat run.
pub fn max_repeat_run(s: &Vec<u8>) -> (r: usize)
    ensures
        r == spec_max_repeat_run(s@),
{
    if s.len() == 0 {
        return 0;
    }
    let mut m: usize = 1;
    let mut t: usize = 1;
    let mut i: usize = 1;
    while i < s.len()
        invariant
            1 <= i <= s@.len(),
            m <= i,
            t <= i,
            (m as nat, t as nat) == runs(s@.take(i as int)),
        decreases s@.len() - i,
    {
        proof {
            lemma_runs_le_len(s@.take(i as int));
            assert(s@.take(i as int + 1).drop_last() =~= s@.take(i as int));
            assert(s@.take(i as int + 1).last() == s@[i as int]);
            assert(s@.take(i as int + 1)[i - 1] == s@[i - 1]);
        }
        if s[i] == s[i - 1] {
            t += 1;
        } else {
            t = 1;
        }
        if t > m {
            m = t;
        }
        i += 1;
    }
    proof {
        assert(s@.take(s@.len() as int) =~= s@);
    }
    m
}

/// One configured shape rule: a conjunction of an optional infix, an
/// optional suffix, and an optional minimum digit-run length. An empty
/// field places no constraint.
pub struct PatternRule {
    pub infix: Vec<u8>,
    pub suffix: Vec<u8>,
    pub min_digit_run: usize,
}

/// A rule stated over plain sequences: optional infix, optional suffix,
/// optional minimum digit run.
pub open spec fn triple_ok(s: Seq<u8>, infix: Seq<u8>, suffix: Seq<u8>, run: nat) -> bool {
    &&& (infix.len() == 0 || has_infix(s, infix))
    &&& (suffix.len() == 0 || has_suffix(s, suffix))
    &&& (run == 0 || has_digit_run(s, run))
}

pub open spec fn rule_matches(r: PatternRule, s: Seq<u8>) -> bool {
    triple_ok(s, r.infix@, r.suffix@, r.min_digit_run as nat)
}

pub open spec fn any_rule_matches(rules: Seq<PatternRule>, s: Seq<u8>) -> bool {
    exists|i: int| 0 <= i < rules.len() && rule_matches(#[trigger] rules[i], s)
}

/// Evaluate one rule.
pub fn rule_matches_exec(r: &PatternRule, s: &Vec<u8>) -> (b: bool)
    ensures
        b == rule_matches(*r, s@),
{
    if r.infix.len() > 0 && !find_infix(s, &r.infix) {
        return false;
    }
    if r.suffix.len() > 0 && !ends_with(s, &r.suffix) {
        return false;
    }
    if r.min_digit_run > 0 && !find_digit_run(s, r.min_digit_run) {
        return false;
    }
    true
}

/// Tokens whose presence off `.com` marks brand impersonation.
pub open spec fn any_brand_infix(brands: Seq<Vec<u8>>, s: Seq<u8>) -> bool {
    exists|i: int| 0 <= i < brands.len() && has_infix(s, (#[trigger] brands[i])@)
}

pub open spec fn brand_flag(brands: Seq<Vec<u8>>, s: Seq<u8>) -> bool {
    any_brand_infix(brands, s) && !has_suffix(s, ascii_seq(".com"@))
}

/// Any configured high-abuse top-level domain ends the name.
pub open spec fn any_tld_suffix(tlds: Seq<Vec<u8>>, s: Seq<u8>) -> bool {
    exists|i: int| 0 <= i < tlds.len() && has_suffix(s, (#[trigger] tlds[i])@)
}

/// The configuration of the feature kit: shape rules, brand tokens and
/// suspicious top-level domains.
pub struct FeatureConfig {
    pub patterns: Vec<PatternRule>,
    pub brands: Vec<Vec<u8>>,
    pub tlds: Vec<Vec<u8>>,
}

/// Number of labels: dots plus one.
pub open spec fn spec_label_count(s: Seq<u8>) -> nat {
    count_class_spec(s, ByteClass::Dot) + 1
}

/// Labels beyond registrable domain plus top-level domain, clamped at zero.
pub open spec fn spec_subdomain_count(s: Seq<u8>) -> nat {
    if spec_label_count(s) > 2 {
        (spec_label_count(s) - 2) as nat
    } else {
        0
    }
}

/// The derived per-name features the classifier consumes.
pub struct FeatureVector {
    pub length: usize,
    pub subdomain_count: usize,
    pub hyphen_count: usize,
    pub digit_count: usize,
    pub vowel_count: usize,
    pub max_repeat_run: usize,
    pub entropy_milli: u64,
    pub suspicious_patterns: bool,
    pub brand_impersonation: bool,
    pub suspicious_tld: bool,
}


/// The feature vector as a value of the name and configuration alone.
pub open spec fn spec_features(s: Seq<u8>, cfg: FeatureConfig) -> FeatureVector {
    FeatureVector {
        length: s.len() as usize,
        subdomain_count: spec_subdomain_count(s) as usize,
        hyphen_count: count_class_spec(s, ByteClass::Hyphen) as usize,
        digit_count: count_class_spec(s, ByteClass::Digit) as usize,
        vowel_count: count_class_spec(s, ByteClass::Vowel) as usize,
        max_repeat_run: spec_max_repeat_run(s) as usize,
        entropy_milli: spec_entropy_milli(s) as u64,
        suspicious_patterns: any_rule_matches(cfg.patterns@, s),
        brand_impersonation: brand_flag(cfg.brands@, s),
        suspicious_tld: any_tld_suffix(cfg.tlds@, s),
    }
}

/// Extract every feature of a normalized name under a configuration.
pub fn extract_features(name: &Name, cfg: &FeatureConfig) -> (r: FeatureVector)
    requires
        name.wf(),
    ensures
        r == spec_features(name@, *cfg),
        r.length == name@.len(),
        r.subdomain_count == spec_subdomain_count(name@),
        r.hyphen_count == count_class_spec(name@, ByteClass::Hyphen),
        r.digit_count == count_class_spec(name@, ByteClass::Digit),
        r.vowel_count == count_class_spec(name@, ByteClass::Vowel),
        r.max_repeat_run == spec_max_repeat_run(name@),
        r.entropy_milli == spec_entropy_milli(name@),
        r.suspicious_patterns == any_rule_matches(cfg.patterns@, name@),
        r.brand_impersonation == brand_flag(cfg.brands@, name@),
        r.suspicious_tld == any_tld_suffix(cfg.tlds@, name@),
{
    let s = name.as_bytes();
    let dots = count_class(s, ByteClass::Dot);
    let labels = dots + 1;
    let subdomain_count = if labels > 2 {
        labels - 2
    } else {
        0
    };
    let mut suspicious_patterns = false;
    let mut i: usize = 0;
    while i < cfg.patterns.len()
        invariant
            i <= cfg.patterns@.len(),
            s@ == name@,
            suspicious_patterns == exists|j: int|
                0 <= j < i && rule_matches(#[trigger] cfg.patterns@[j], name@),
        decreases cfg.patterns@.len() - i,
    {
        if rule_matches_exec(&cfg.patterns[i], s) {
            suspicious_patterns = true;
        }
        i += 1;
    }
    let mut brand_hit = false;
    let mut i: usize = 0;
    while i < cfg.brands.len()
        invariant
            i <= cfg.brands@.len(),
            s@ == name@,
            brand_hit == exists|j: int| 0 <= j < i && has_infix(name@, (#[trigger] cfg.brands@[j])@),
        decreases cfg.brands@.len() - i,
    {
        if find_infix(s, &cfg.brands[i]) {
            brand_hit = true;
        }
        i += 1;
    }
    let dot_com = str_bytes_dot_com();
    let brand_impersonation = brand_hit && !ends_with(s, &dot_com);
    let mut suspicious_tld = false;
    let mut i: usize = 0;
    while i < cfg.tlds.len()
        invariant
            i <= cfg.tlds@.len(),
            s@ == name@,
            suspicious_tld == exists|j: int| 0 <= j < i && has_suffix(name@, (#[trigger] cfg.tlds@[j])@),
        decreases cfg.tlds@.len() - i,
    {
        if ends_with(s, &cfg.tlds[i]) {
            suspicious_tld = true;
        }
        i += 1;
    }
    let r = FeatureVector {
        length: s.len(),
        subdomain_count,
        hyphen_count: count_class(s, ByteClass::Hyphen),
        digit_count: count_class(s, ByteClass::Digit),
        vowel_count: count_class(s, ByteClass::Vowel),
        max_repeat_run: max_repeat_run(s),
        entropy_milli: entropy_milli(s),
        suspicious_patterns,
        brand_impersonation,
        suspicious_tld,
    };
    proof {
        lemma_count_class_le_len(name@, ByteClass::Hyphen);
        lemma_count_class_le_len(name@, ByteClass::Digit);
        lemma_count_class_le_len(name@, ByteClass::Vowel);
        lemma_count_class_le_len(name@, ByteClass::Dot);
        lemma_runs_le_len(name@);
        crate::entropy::lemma_entropy_milli_bound(name@);
        assert(r == spec_features(name@, *cfg));
    }
    r
}

/// The bytes of `.com`.
fn str_bytes_dot_com() -> (r: Vec<u8>)
    ensures
        r@ == ascii_seq(".com"@),
{
    proof {
        reveal_strlit(".com");
    }
    str_bytes(".com")
}

/// The built-in shape rules: brand-like or service-like infixes paired
/// with off-mainstream suffixes, verification/update/login infixes, and a
/// long digit run before `.com`.
pub open spec fn any_default_pattern(s: Seq<u8>) -> bool {
    ||| triple_ok(s, ascii_seq("-secure-"@), ascii_seq(".com"@), 0)
    ||| triple_ok(s, ascii_seq("paypal"@), ascii_seq(".tk"@), 0)
    ||| triple_ok(s, ascii_seq("bank"@), ascii_seq(".ml"@), 0)
    ||| triple_ok(s, Seq::<u8>::empty(), ascii_seq(".com"@), 5)
    ||| triple_ok(s, ascii_seq("-verification-"@), Seq::<u8>::empty(), 0)
    ||| triple_ok(s, ascii_seq("-update-"@), Seq::<u8>::empty(), 0)
    ||| triple_ok(s, ascii_seq("-login-"@), Seq::<u8>::empty(), 0)
}

/// Build the built-in shape rules.
pub fn default_patterns() -> (r: Vec<PatternRule>)
    ensures
        forall|s: Seq<u8>| #[trigger] any_rule_matches(r@, s) == any_default_pattern(s),
{
    proof {
        reveal_strlit("-secure-");
        reveal_strlit(".com");
        reveal_strlit("paypal");
        reveal_strlit(".tk");
        reveal_strlit("bank");
        reveal_strlit(".ml");
        reveal_strlit("-verification-");
        reveal_strlit("-update-");
        reveal_strlit("-login-");
    }
    let mut r: Vec<PatternRule> = Vec::new();
    r.push(PatternRule { infix: str_bytes("-secure-"), suffix: str_bytes(".com"), min_digit_run: 0 });
    r.push(PatternRule { infix: str_bytes("paypal"), suffix: str_bytes(".tk"), min_digit_run: 0 });
    r.push(PatternRule { infix: str_bytes("bank"), suffix: str_bytes(".ml"), min_digit_run: 0 });
    r.push(PatternRule { infix: Vec::new(), suffix: str_bytes(".com"), min_digit_run: 5 });
    r.push(PatternRule { infix: str_bytes("-verification-"), suffix: Vec::new(), min_digit_run: 0 });
    r.push(PatternRule { infix: str_bytes("-update-"), suffix: Vec::new(), min_digit_run: 0 });
    r.push(PatternRule { infix: str_bytes("-login-"), suffix: Vec::new(), min_digit_run: 0 });
    proof {
        assert forall|s: Seq<u8>| #[trigger] any_rule_matches(r@, s) == any_default_pattern(s) by {
            if any_rule_matches(r@, s) {
                let i = choose|i: int| 0 <= i < r@.len() && rule_matches(#[trigger] r@[i], s);
                assert(any_default_pattern(s));
            }
            if any_default_pattern(s) {
                if triple_ok(s, ascii_seq("-secure-"@), ascii_seq(".com"@), 0) {
                    assert(rule_matches(r@[0], s));
                } else if triple_ok(s, ascii_seq("paypal"@), ascii_seq(".tk"@), 0) {
                    assert(rule_matches(r@[1], s));
                } else if triple_ok(s, ascii_seq("bank"@), ascii_seq(".ml"@), 0) {
                    assert(rule_matches(r@[2], s));
                } else if triple_ok(s, Seq::<u8>::empty(), ascii_seq(".com"@), 5) {
                    assert(rule_matches(r@[3], s));
                } else if triple_ok(s, ascii_seq("-verification-"@), Seq::<u8>::empty(), 0) {
                    assert(rule_matches(r@[4], s));
                } else if triple_ok(s, ascii_seq("-update-"@), Seq::<u8>::empty(), 0) {
                    assert(rule_matches(r@[5], s));
                } else {
                    assert(rule_matches(r@[6], s));
                }
                assert(any_rule_matches(r@, s));
            }
        }
    }
    r
}

/// The built-in brand token list.
pub open spec fn any_default_brand(s: Seq<u8>) -> bool {
    ||| has_infix(s, ascii_seq("google"@))
    ||| has_infix(s, ascii_seq("facebook"@))
    ||| has_infix(s, ascii_seq("amazon"@))
    ||| has_infix(s, ascii_seq("microsoft"@))
    ||| has_infix(s, ascii_seq("apple"@))
    ||| has_infix(s, ascii_seq("netflix"@))
    ||| has_infix(s, ascii_seq("paypal"@))
    ||| has_infix(s, ascii_seq("ebay"@))
    ||| has_infix(s, ascii_seq("instagram"@))
    ||| has_infix(s, ascii_seq("twitter"@))
    ||| has_infix(s, ascii_seq("linkedin"@))
    ||| has_infix(s, ascii_seq("youtube"@))
    ||| has_infix(s, ascii_seq("bank"@))
    ||| has_infix(s, ascii_seq("wells"@))
    ||| has_infix(s, ascii_seq("chase"@))
    ||| has_infix(s, ascii_seq("citi"@))
    ||| has_infix(s, ascii_seq("hsbc"@))
    ||| has_infix(s, ascii_seq("santander"@))
}

/// A brand token occurs and the name does not end in `.com`.
pub open spec fn default_brand_flag(s: Seq<u8>) -> bool {
    any_default_brand(s) && !has_suffix(s, ascii_seq(".com"@))
}

/// Build the built-in brand token list.
pub fn default_brands() -> (r: Vec<Vec<u8>>)
    ensures
        forall|s: Seq<u8>| #[trigger] any_brand_infix(r@, s) == any_default_brand(s),
{
    proof {
        reveal_strlit("google");
        reveal_strlit("facebook");
        reveal_strlit("amazon");
        reveal_strlit("microsoft");
        reveal_strlit("apple");
        reveal_strlit("netflix");
        reveal_strlit("paypal");
        reveal_strlit("ebay");
        reveal_strlit("instagram");
        reveal_strlit("twitter");
        reveal_strlit("linkedin");
        reveal_strlit("youtube");
        reveal_strlit("bank");
        reveal_strlit("wells");
        reveal_strlit("chase");
        reveal_strlit("citi");
        reveal_strlit("hsbc");
        reveal_strlit("santander");
    }
    let mut r: Vec<Vec<u8>> = Vec::new();
    r.push(str_bytes("google"));
    r.push(str_bytes("facebook"));
    r.push(str_bytes("amazon"));
    r.push(str_bytes("microsoft"));
    r.push(str_bytes("apple"));
    r.push(str_bytes("netflix"));
    r.push(str_bytes("paypal"));
    r.push(str_bytes("ebay"));
    r.push(str_bytes("instagram"));
    r.push(str_bytes("twitter"));
    r.push(str_bytes("linkedin"));
    r.push(str_bytes("youtube"));
    r.push(str_bytes("bank"));
    r.push(str_bytes("wells"));
    r.push(str_bytes("chase"));
    r.push(str_bytes("citi"));
    r.push(str_bytes("hsbc"));
    r.push(str_bytes("santander"));
    proof {
        assert forall|s: Seq<u8>| #[trigger] any_brand_infix(r@, s) == any_default_brand(s) by {
            if any_brand_infix(r@, s) {
                let i = choose|i: int| 0 <= i < r@.len() && has_infix(s, (#[trigger] r@[i])@);
                assert(any_default_brand(s));
            }
            if any_default_brand(s) {
                if has_infix(s, ascii_seq("google"@)) {
                    assert(has_infix(s, r@[0]@));
                } else if has_infix(s, ascii_seq("facebook"@)) {
                    assert(has_infix(s, r@[1]@));
                } else if has_infix(s, ascii_seq("amazon"@)) {
                    assert(has_infix(s, r@[2]@));
                } else if has_infix(s, ascii_seq("microsoft"@)) {
                    assert(has_infix(s, r@[3]@));
                } else if has_infix(s, ascii_seq("apple"@)) {
                    assert(has_infix(s, r@[4]@));
                } else if has_infix(s, ascii_seq("netflix"@)) {
                    assert(has_infix(s, r@[5]@));
                } else if has_infix(s, ascii_seq("paypal"@)) {
                    assert(has_infix(s, r@[6]@));
                } else if has_infix(s, ascii_seq("ebay"@)) {
                    assert(has_infix(s, r@[7]@));
                } else if has_infix(s, ascii_seq("instagram"@)) {
                    assert(has_infix(s, r@[8]@));
                } else if has_infix(s, ascii_seq("twitter"@)) {
                    assert(has_infix(s, r@[9]@));
                } else if has_infix(s, ascii_seq("linkedin"@)) {
                    assert(has_infix(s, r@[10]@));
                } else if has_infix(s, ascii_seq("youtube"@)) {
                    assert(has_infix(s, r@[11]@));
                } else if has_infix(s, ascii_seq("bank"@)) {
                    assert(has_infix(s, r@[12]@));
                } else if has_infix(s, ascii_seq("wells"@)) {
                    assert(has_infix(s, r@[13]@));
                } else if has_infix(s, ascii_seq("chase"@)) {
                    assert(has_infix(s, r@[14]@));
                } else if has_infix(s, ascii_seq("citi"@)) {
                    assert(has_infix(s, r@[15]@));
                } else if has_infix(s, ascii_seq("hsbc"@)) {
                    assert(has_infix(s, r@[16]@));
                } else {
                    assert(has_infix(s, r@[17]@));
                }
                assert(any_brand_infix(r@, s));
            }
        }
    }
    r
}

/// The built-in list of high-abuse top-level domains.
pub open spec fn any_default_tld(s: Seq<u8>) -> bool {
    ||| has_suffix(s, ascii_seq(".tk"@))
    ||| has_suffix(s, ascii_seq(".ml"@))
    ||| has_suffix(s, ascii_seq(".cf"@))
    ||| has_suffix(s, ascii_seq(".ga"@))
    ||| has_suffix(s, ascii_seq(".icu"@))
    ||| has_suffix(s, ascii_seq(".top"@))
    ||| has_suffix(s, ascii_seq(".click"@))
    ||| has_suffix(s, ascii_seq(".download"@))
}

/// Build the built-in top-level-domain list.
pub fn default_tlds() -> (r: Vec<Vec<u8>>)
    ensures
        forall|s: Seq<u8>| #[trigger] any_tld_suffix(r@, s) == any_default_tld(s),
{
    proof {
        reveal_strlit(".tk");
        reveal_strlit(".ml");
        reveal_strlit(".cf");
        reveal_strlit(".ga");
        reveal_strlit(".icu");
        reveal_strlit(".top");
        reveal_strlit(".click");
        reveal_strlit(".download");
    }
    let mut r: Vec<Vec<u8>> = Vec::new();
    r.push(str_bytes(".tk"));
    r.push(str_bytes(".ml"));
    r.push(str_bytes(".cf"));
    r.push(str_bytes(".ga"));
    r.push(str_bytes(".icu"));
    r.push(str_bytes(".top"));
    r.push(str_bytes(".click"));
    r.push(str_bytes(".download"));
    proof {
        assert forall|s: Seq<u8>| #[trigger] any_tld_suffix(r@, s) == any_default_tld(s) by {
            if any_tld_suffix(r@, s) {
                let i = choose|i: int| 0 <= i < r@.len() && has_suffix(s, (#[trigger] r@[i])@);
                assert(any_default_tld(s));
            }
            if any_default_tld(s) {
                if has_suffix(s, ascii_seq(".tk"@)) {
                    assert(has_suffix(s, r@[0]@));
                } else if has_suffix(s, ascii_seq(".ml"@)) {
                    assert(has_suffix(s, r@[1]@));
                } else if has_suffix(s, ascii_seq(".cf"@)) {
                    assert(has_suffix(s, r@[2]@));
                } else if has_suffix(s, ascii_seq(".ga"@)) {
                    assert(has_suffix(s, r@[3]@));
                } else if has_suffix(s, ascii_seq(".icu"@)) {
                    assert(has_suffix(s, r@[4]@));
                } else if has_suffix(s, ascii_seq(".top"@)) {
                    assert(has_suffix(s, r@[5]@));
                } else if has_suffix(s, ascii_seq(".click"@)) {
                    assert(has_suffix(s, r@[6]@));
                } else {
                    assert(has_suffix(s, r@[7]@));
                }
                assert(any_tld_suffix(r@, s));
            }
        }
    }
    r
}

/// The built-in feature configuration: shape rules, brand tokens and
/// suspicious top-level domains.
pub fn default_feature_config() -> (r: FeatureConfig)
    ensures
        forall|s: Seq<u8>| #[trigger] any_rule_matches(r.patterns@, s) == any_default_pattern(s),
        forall|s: Seq<u8>| #[trigger] any_brand_infix(r.brands@, s) == any_default_brand(s),
        forall|s: Seq<u8>| #[trigger] any_tld_suffix(r.tlds@, s) == any_default_tld(s),
{
    FeatureConfig { patterns: default_patterns(), brands: default_brands(), tlds: default_tlds() }
}

/// Flags a name whose shape matches any of the built-in suspicious rules.
pub fn has_suspicious_pattern(domain: &Name) -> (r: (bool, Vec<String>))
    ensures
        r.0 == any_default_pattern(domain@),
        r.0 <==> r.1@.len() > 0,
{
    let rules = default_patterns();
    let s = domain.as_bytes();
    let mut flags: Vec<String> = Vec::new();
    let mut i: usize = 0;
    while i < rules.len()
        invariant
            i <= rules@.len(),
            s@ == domain@,
            (flags@.len() > 0) == exists|j: int|
                0 <= j < i && rule_matches(#[trigger] rules@[j], domain@),
        decreases rules@.len() - i,
    {
        if rule_matches_exec(&rules[i], s) {
            flags.push(String::from_str("matches a suspicious shape rule"));
        }
        i += 1;
    }
    let hit = flags.len() > 0;
    proof {
        assert(any_rule_matches(rules@, domain@) == any_default_pattern(domain@));
    }
    (hit, flags)
}

/// Flags a name that carries a known brand token yet does not end in
/// `.com`.
pub fn check_brand_impersonation(domain: &Name) -> (r: (bool, Vec<String>))
    ensures
        r.0 == default_brand_flag(domain@),
        r.0 <==> r.1@.len() > 0,
{
    let brands = default_brands();
    let s = domain.as_bytes();
    let dot_com = str_bytes_dot_com();
    let off_com = !ends_with(s, &dot_com);
    let mut flags: Vec<String> = Vec::new();
    if off_com {
        let mut i: usize = 0;
        while i < brands.len()
            invariant
                i <= brands@.len(),
                s@ == domain@,
                (flags@.len() > 0) == exists|j: int|
                    0 <= j < i && has_infix(domain@, (#[trigger] brands@[j])@),
            decreases brands@.len() - i,
        {
            if find_infix(s, &brands[i]) {
                flags.push(String::from_str("carries a brand token off .com"));
            }
            i += 1;
        }
        proof {
            assert(any_brand_infix(brands@, domain@) == any_default_brand(domain@));
        }
    }
    let hit = flags.len() > 0;
    (hit, flags)
}

/// Flags a name ending in one of the built-in high-abuse top-level
/// domains.
pub fn analyze_tld_suspicion(domain: &Name) -> (r: (bool, Vec<String>))
    ensures
        r.0 == any_default_tld(domain@),
        r.0 <==> r.1@.len() > 0,
{
    let tlds = default_tlds();
    let s = domain.as_bytes();
    let mut flags: Vec<String> = Vec::new();
    let mut i: usize = 0;
    while i < tlds.len()
        invariant
            i <= tlds@.len(),
            s@ == domain@,
            (flags@.len() > 0) == exists|j: int|
                0 <= j < i && has_suffix(domain@, (#[trigger] tlds@[j])@),
        decreases tlds@.len() - i,
    {
        if ends_with(s, &tlds[i]) {
            flags.push(String::from_str("uses a suspicious top-level domain"));
        }
        i += 1;
    }
    let hit = flags.len() > 0;
    proof {
        assert(any_tld_suffix(tlds@, domain@) == any_default_tld(domain@));
    }
    (hit, flags)
}

/// Normalization is idempotent, so every feature of a normalized name is
/// the feature of normalizing it again.
pub proof fn lemma_features_normalize_idempotent(s: Seq<u8>, cfg: FeatureConfig)
    requires
        crate::name::wf_name(crate::name::normalize_seq(s)),
    ensures
        spec_features(crate::name::normalize_seq(crate::name::normalize_seq(s)), cfg)
            == spec_features(crate::name::normalize_seq(s), cfg),
{
    crate::name::lemma_normalize_idempotent(s);
}

} // verus!
