//! The weighted feature classifier.
//!
//! The score is a weighted linear sum, kept in exact integer
//! arithmetic: weights are given in milli-units and every saturated count
//! contribution is put over the common denominator `hyphen_cap * digit_cap
//! * repeat_cap`, so `score = score_num / (1000 * denom)` holds exactly.
//! Thresholds (block above 0.7, suspect above 0.4) and confidences are
//! compared against the same denominator, so no rounding enters any
//! decision. Reported confidences are in milli-units, rounded down.

use vstd::prelude::*;
use vstd::string::StringExecFns;
use crate::features::FeatureVector;

verus! {

/// Score needed (in milli-units) to block.
pub const BLOCK_THRESHOLD_MILLI: u64 = 700;

/// Score needed (in milli-units) to mark a name suspect.
pub const SUSPECT_THRESHOLD_MILLI: u64 = 400;

/// Confidence cap (in milli-units).
pub const CONFIDENCE_CAP_MILLI: u64 = 950;

/// The configured weight table, in milli-units, with saturation caps for
/// the unbounded counts.
pub struct WeightTable {
    pub suspicious_patterns: u32,
    pub brand_impersonation: u32,
    pub suspicious_tld: u32,
    pub entropy_outlier: u32,
    pub excessive_length: u32,
    pub hyphen_weight: u32,
    pub hyphen_cap: u32,
    pub digit_weight: u32,
    pub digit_cap: u32,
    pub repeat_weight: u32,
    pub repeat_cap: u32,
}

/// Bounds under which the integer scoring cannot overflow.
pub open spec fn wf_weights(w: WeightTable) -> bool {
    &&& 1 <= w.hyphen_cap <= 100
    &&& 1 <= w.digit_cap <= 100
    &&& 1 <= w.repeat_cap <= 100
    &&& w.suspicious_patterns <= 10000
    &&& w.brand_impersonation <= 10000
    &&& w.suspicious_tld <= 10000
    &&& w.entropy_outlier <= 10000
    &&& w.excessive_length <= 10000
    &&& w.hyphen_weight <= 10000
    &&& w.digit_weight <= 10000
    &&& w.repeat_weight <= 10000
}

impl WeightTable {
    /// The documented default weights and caps.
    pub fn defaults() -> (r: WeightTable)
        ensures
            r.suspicious_patterns == 800,
            r.brand_impersonation == 900,
            r.suspicious_tld == 600,
            r.entropy_outlier == 400,
            r.excessive_length == 200,
            r.hyphen_weight == 100,
            r.hyphen_cap == 8,
            r.digit_weight == 150,
            r.digit_cap == 10,
            r.repeat_weight == 250,
            r.repeat_cap == 6,
            wf_weights(r),
    {
        WeightTable {
            suspicious_patterns: 800,
            brand_impersonation: 900,
            suspicious_tld: 600,
            entropy_outlier: 400,
            excessive_length: 200,
            hyphen_weight: 100,
            hyphen_cap: 8,
            digit_weight: 150,
            digit_cap: 10,
            repeat_weight: 250,
            repeat_cap: 6,
        }
    }
}

/// Common denominator of the saturated count contributions.
pub open spec fn spec_denom(w: WeightTable) -> int {
    w.hyphen_cap * w.digit_cap * w.repeat_cap
}

/// The entropy lies outside the ordinary band [2.5, 4.5] bits.
pub open spec fn entropy_outlier(e_milli: u64) -> bool {
    e_milli < 2500 || e_milli > 4500
}

/// Saturate `v` at `cap`.
pub open spec fn sat(v: int, cap: int) -> int {
    if v > cap {
        cap
    } else {
        v
    }
}

/// The score numerator: the weighted sum as `score * 1000 * denom`,
/// an exact integer.
pub open spec fn spec_score_num(f: FeatureVector, w: WeightTable) -> int {
    let d = spec_denom(w);
    (if f.suspicious_patterns {
        w.suspicious_patterns * d
    } else {
        0
    }) + (if f.brand_impersonation {
        w.brand_impersonation * d
    } else {
        0
    }) + (if f.suspicious_tld {
        w.suspicious_tld * d
    } else {
        0
    }) + (if entropy_outlier(f.entropy_milli) {
        w.entropy_outlier * d
    } else {
        0
    }) + (if f.length > 30 {
        w.excessive_length * d
    } else {
        0
    }) + w.hyphen_weight * sat(f.hyphen_count as int, w.hyphen_cap as int) * (w.digit_cap
        * w.repeat_cap) + w.digit_weight * sat(f.digit_count as int, w.digit_cap as int) * (
    w.hyphen_cap * w.repeat_cap) + w.repeat_weight * sat(
        f.max_repeat_run as int,
        w.repeat_cap as int,
    ) * (w.hyphen_cap * w.digit_cap)
}

/// What the classifier decides.
#[derive(Clone, Copy, PartialEq, Eq, Structural, Debug)]
pub enum Verdict {
    Allow,
    Block,
    Suspect,
}

/// The verdict assigned to a feature vector.
pub open spec fn spec_verdict(f: FeatureVector, in_threat: bool, w: WeightTable) -> Verdict {
    if in_threat {
        Verdict::Block
    } else if spec_score_num(f, w) > BLOCK_THRESHOLD_MILLI * spec_denom(w) {
        Verdict::Block
    } else if spec_score_num(f, w) > SUSPECT_THRESHOLD_MILLI * spec_denom(w) {
        Verdict::Suspect
    } else {
        Verdict::Allow
    }
}

/// The confidence in milli-units, rounded down.
pub open spec fn spec_confidence_milli(f: FeatureVector, in_threat: bool, w: WeightTable) -> int {
    let d = spec_denom(w);
    let sc = spec_score_num(f, w) / d;
    if in_threat {
        CONFIDENCE_CAP_MILLI as int
    } else if spec_score_num(f, w) > BLOCK_THRESHOLD_MILLI * d {
        if sc > CONFIDENCE_CAP_MILLI {
            CONFIDENCE_CAP_MILLI as int
        } else {
            sc
        }
    } else if spec_score_num(f, w) > SUSPECT_THRESHOLD_MILLI * d {
        sc
    } else {
        if 1000 - sc > CONFIDENCE_CAP_MILLI {
            CONFIDENCE_CAP_MILLI as int
        } else {
            1000 - sc
        }
    }
}

/// The ordered reason list: known-malicious alone, else one fixed string
/// for each non-zero flag, in the order patterns, brand, TLD, entropy,
/// length.
pub open spec fn spec_reasons(f: FeatureVector, in_threat: bool) -> Seq<Seq<char>> {
    if in_threat {
        seq!["known_malicious"@]
    } else {
        (if f.suspicious_patterns {
            seq!["Contains suspicious patterns"@]
        } else {
            Seq::<Seq<char>>::empty()
        }) + (if f.brand_impersonation {
            seq!["Potential brand impersonation"@]
        } else {
            Seq::<Seq<char>>::empty()
        }) + (if f.suspicious_tld {
            seq!["Uses suspicious top-level domain"@]
        } else {
            Seq::<Seq<char>>::empty()
        }) + (if entropy_outlier(f.entropy_milli) {
            seq!["Unusual character distribution"@]
        } else {
            Seq::<Seq<char>>::empty()
        }) + (if f.length > 30 {
            seq!["Unusually long domain name"@]
        } else {
            Seq::<Seq<char>>::empty()
        })
    }
}

/// The views of a reason list.
pub open spec fn reasons_view(v: Vec<String>) -> Seq<Seq<char>> {
    v@.map_values(|x: String| x@)
}

/// The classifier's decision: a verdict, the reasons behind it, and a
/// confidence in milli-units.
pub struct Decision {
    pub verdict: Verdict,
    pub reasons: Vec<String>,
    pub confidence_milli: u32,
}

/// Product of two bounded small factors.
fn cap_product(a: u32, b: u32) -> (r: u64)
    requires
        a <= 100,
        b <= 100,
    ensures
        r == a * b,
        r <= 10000,
{
    proof {
        assert(a * b <= 10000) by (nonlinear_arith)
            requires
                a <= 100 && b <= 100,
        ;
    }
    (a as u64) * (b as u64)
}

/// A boolean feature's contribution: its weight over the denominator.
fn bool_term(weight: u32, d: u64) -> (r: u64)
    requires
        weight <= 10000,
        d <= 1000000,
    ensures
        r == weight * d,
        r <= 10000000000u64,
{
    proof {
        assert(weight * d <= 10000000000u64) by (nonlinear_arith)
            requires
                weight <= 10000 && d <= 1000000,
        ;
    }
    (weight as u64) * d
}

/// A saturated count's contribution: weight times count over the two
/// other caps.
fn count_term(weight: u32, satv: u64, sub: u64) -> (r: u64)
    requires
        weight <= 10000,
        satv <= 100,
        sub <= 10000,
    ensures
        r == weight * satv * sub,
        r <= 10000000000u64,
{
    proof {
        assert(weight * satv <= 1000000 && weight * satv * sub <= 10000000000u64)
            by (nonlinear_arith)
            requires
                weight <= 10000 && satv <= 100 && sub <= 10000,
        ;
    }
    (weight as u64) * satv * sub
}

/// Classify a feature vector. Pure and deterministic: every field of the
/// result is a function of the inputs alone.
#[verifier::rlimit(60)]
pub fn classify(f: &FeatureVector, in_threat: bool, w: &WeightTable) -> (r: Decision)
    requires
        wf_weights(*w),
    ensures
        r.verdict == spec_verdict(*f, in_threat, *w),
        reasons_view(r.reasons) == spec_reasons(*f, in_threat),
        r.confidence_milli == spec_confidence_milli(*f, in_threat, *w),
{
    let ghost d_spec = spec_denom(*w);
    let hd: u64 = cap_product(w.hyphen_cap, w.digit_cap);
    let dr: u64 = cap_product(w.digit_cap, w.repeat_cap);
    let hr: u64 = cap_product(w.hyphen_cap, w.repeat_cap);
    proof {
        assert(hd * w.repeat_cap <= 1000000 && hd * w.repeat_cap == spec_denom(*w) && spec_denom(
            *w,
        ) >= 1) by (nonlinear_arith)
            requires
                1 <= w.hyphen_cap <= 100,
                1 <= w.digit_cap <= 100,
                1 <= w.repeat_cap <= 100,
                hd == w.hyphen_cap * w.digit_cap,
        ;
    }
    let d: u64 = hd * (w.repeat_cap as u64);
    let sat_h: u64 = if f.hyphen_count as u64 > w.hyphen_cap as u64 {
        w.hyphen_cap as u64
    } else {
        f.hyphen_count as u64
    };
    let sat_d: u64 = if f.digit_count as u64 > w.digit_cap as u64 {
        w.digit_cap as u64
    } else {
        f.digit_count as u64
    };
    let sat_r: u64 = if f.max_repeat_run as u64 > w.repeat_cap as u64 {
        w.repeat_cap as u64
    } else {
        f.max_repeat_run as u64
    };
    let mut score: u64 = 0;
    if f.suspicious_patterns {
        score = score + bool_term(w.suspicious_patterns, d);
    }
    if f.brand_impersonation {
        score = score + bool_term(w.brand_impersonation, d);
    }
    if f.suspicious_tld {
        score = score + bool_term(w.suspicious_tld, d);
    }
    let e_out = f.entropy_milli < 2500 || f.entropy_milli > 4500;
    if e_out {
        score = score + bool_term(w.entropy_outlier, d);
    }
    if f.length > 30 {
        score = score + bool_term(w.excessive_length, d);
    }
    score = score + count_term(w.hyphen_weight, sat_h, dr);
    score = score + count_term(w.digit_weight, sat_d, hr);
    score = score + count_term(w.repeat_weight, sat_r, hd);
    proof {
        assert(score == spec_score_num(*f, *w));
    }
    // reasons, in the fixed order
    let mut reasons: Vec<String> = Vec::new();
    if in_threat {
        reasons.push(String::from_str("known_malicious"));
        proof {
            assert(reasons_view(reasons) =~= spec_reasons(*f, in_threat));
        }
    } else {
        if f.suspicious_patterns {
            reasons.push(String::from_str("Contains suspicious patterns"));
        }
        if f.brand_impersonation {
            reasons.push(String::from_str("Potential brand impersonation"));
        }
        if f.suspicious_tld {
            reasons.push(String::from_str("Uses suspicious top-level domain"));
        }
        if e_out {
            reasons.push(String::from_str("Unusual character distribution"));
        }
        if f.length > 30 {
            reasons.push(String::from_str("Unusually long domain name"));
        }
        proof {
            assert(reasons_view(reasons) =~= spec_reasons(*f, in_threat));
        }
    }
    // verdict and confidence
    let sc: u64 = score / d;
    if in_threat {
        Decision { verdict: Verdict::Block, reasons, confidence_milli: 950 }
    } else if score > BLOCK_THRESHOLD_MILLI * d {
        let conf: u64 = if sc > 950 {
            950
        } else {
            sc
        };
        Decision { verdict: Verdict::Block, reasons, confidence_milli: conf as u32 }
    } else if score > SUSPECT_THRESHOLD_MILLI * d {
        proof {
            assert(sc <= score / 1) by (nonlinear_arith)
                requires
                    d >= 1 && sc == score / d,
            ;
        }
        Decision { verdict: Verdict::Suspect, reasons, confidence_milli: sc as u32 }
    } else {
        proof {
            assert(sc <= 700) by (nonlinear_arith)
                requires
                    d >= 1 && sc == score / d && score <= 700 * d,
            ;
        }
        let conf: u64 = if 1000 - sc > 950 {
            950
        } else {
            1000 - sc
        };
        Decision { verdict: Verdict::Allow, reasons, confidence_milli: conf as u32 }
    }
}

/// Replay: the classifier is a function. Two decisions reached from the
/// same features, the same threat bit and the same weight table agree in
/// verdict, reasons and confidence.
pub proof fn lemma_classify_deterministic(
    f: FeatureVector,
    in_threat: bool,
    w: WeightTable,
    v1: Verdict,
    v2: Verdict,
    r1: Seq<Seq<char>>,
    r2: Seq<Seq<char>>,
    c1: int,
    c2: int,
)
    requires
        v1 == spec_verdict(f, in_threat, w),
        v2 == spec_verdict(f, in_threat, w),
        r1 == spec_reasons(f, in_threat),
        r2 == spec_reasons(f, in_threat),
        c1 == spec_confidence_milli(f, in_threat, w),
        c2 == spec_confidence_milli(f, in_threat, w),
    ensures
        v1 == v2,
        r1 == r2,
        c1 == c2,
{
}

/// The coarse threat label the telemetry carries: known-malicious from
/// the index; of heuristic blocks, brand hits read as phishing, pattern
/// or registry hits as suspicious; anything else blocked is a potential
/// threat; unblocked names are safe.
pub open spec fn spec_threat_type(f: FeatureVector, in_threat: bool, v: Verdict) -> Seq<char> {
    if in_threat {
        "known_malicious"@
    } else if v != Verdict::Block {
        "safe"@
    } else if f.brand_impersonation {
        "phishing"@
    } else if f.suspicious_patterns || f.suspicious_tld {
        "suspicious"@
    } else {
        "potential_threat"@
    }
}

/// The label for a decision.
pub fn threat_type_of(f: &FeatureVector, in_threat: bool, v: &Verdict) -> (r: String)
    ensures
        r@ == spec_threat_type(*f, in_threat, *v),
{
    if in_threat {
        String::from_str("known_malicious")
    } else if !matches!(v, Verdict::Block) {
        String::from_str("safe")
    } else if f.brand_impersonation {
        String::from_str("phishing")
    } else if f.suspicious_patterns || f.suspicious_tld {
        String::from_str("suspicious")
    } else {
        String::from_str("potential_threat")
    }
}

} // verus!
