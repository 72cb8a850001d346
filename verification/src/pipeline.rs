//! The per-datagram query pipeline: parse, validate, classify, and plan.
//!
//! A malformed datagram is dropped silently. A well-formed one with no
//! question, more than one question, or an unusable name is answered with
//! FORMERR. A name in the threat set or over the block threshold is
//! answered with a synthesized NXDOMAIN. Everything else proceeds to the
//! cache and, on a miss, to an upstream; the caller performs those steps
//! with the cache and pool types and builds the reply with the helpers
//! here.

use vstd::prelude::*;
use crate::cache::{QueryKey, key_view};
use crate::classify::{
    classify, reasons_view, spec_confidence_milli, spec_reasons, spec_threat_type, spec_verdict,
    threat_type_of, wf_weights, Decision, Verdict, WeightTable,
};
use crate::codec::{
    labels_ok, lemma_decode_labels_ok, message_view, parse_message, serialize_message, spec_parse,
    spec_serialize, view_wf, DnsMessage, Header, MessageView, Question,
};
use crate::features::{spec_features, extract_features, FeatureConfig};
use crate::name::{normalize_seq, wf_name, Name};
use crate::threat::ThreatIndex;
use crate::typo::clone_bytes;

verus! {

pub const RCODE_NOERROR: u8 = 0;

pub const RCODE_FORMERR: u8 = 1;

pub const RCODE_SERVFAIL: u8 = 2;

pub const RCODE_NXDOMAIN: u8 = 3;

/// The header of a synthesized reply: same id and opcode, QR and RA set,
/// RD echoed, AA and TC clear, all sections empty but the echoed
/// question.
pub open spec fn spec_response_header(req: Header, rcode: u8, qd: u16) -> Header {
    Header {
        id: req.id,
        qr: true,
        opcode: req.opcode,
        aa: false,
        tc: false,
        rd: req.rd,
        ra: true,
        z: 0,
        rcode,
        qdcount: qd,
        ancount: 0,
        nscount: 0,
        arcount: 0,
    }
}

/// The synthesized reply to a request, as a message value.
pub open spec fn response_view(req: MessageView, rcode: u8) -> MessageView {
    MessageView {
        header: spec_response_header(
            req.header,
            rcode,
            if req.has_question {
                1
            } else {
                0
            },
        ),
        has_question: req.has_question,
        qname: req.qname,
        qtype: req.qtype,
        qclass: req.qclass,
    }
}

/// Build the wire bytes of a synthesized reply: the request's id and
/// opcode, QR and RA set, RD echoed, the question echoed, no answers.
/// Parsing the reply gives exactly `response_view(req, rcode)`.
pub fn build_response(req: &DnsMessage, rcode: u8) -> (r: Vec<u8>)
    requires
        rcode < 16,
        req.header.opcode < 16,
        req.question matches Some(q) ==> labels_ok(q.qname@),
    ensures
        r@ == spec_serialize(response_view(message_view(*req), rcode)),
        spec_parse(r@) == Some(response_view(message_view(*req), rcode)),
{
    let header = Header {
        id: req.header.id,
        qr: true,
        opcode: req.header.opcode,
        aa: false,
        tc: false,
        rd: req.header.rd,
        ra: true,
        z: 0,
        rcode,
        qdcount: if req.question.is_some() {
            1
        } else {
            0
        },
        ancount: 0,
        nscount: 0,
        arcount: 0,
    };
    let question: Option<Question> = match &req.question {
        Some(q) => Some(
            Question { qname: clone_bytes(&q.qname), qtype: q.qtype, qclass: q.qclass },
        ),
        None => None,
    };
    let m = DnsMessage { header, question };
    proof {
        assert(message_view(m) == response_view(message_view(*req), rcode));
        assert(view_wf(message_view(m)));
    }
    serialize_message(&m)
}

/// The request carries exactly one question.
pub open spec fn query_admissible(v: MessageView) -> bool {
    v.header.qdcount == 1 && v.has_question && wf_name(normalize_seq(v.qname))
}

/// What the pipeline decided for one datagram.
pub enum QueryPlan {
    /// Malformed: drop silently and count a parse error.
    Drop,
    /// Unsupported question shape: reply with these FORMERR bytes.
    Formerr(Vec<u8>),
    /// Blocked: reply with these synthesized NXDOMAIN bytes.
    Block(Vec<u8>, Decision),
    /// Allowed or suspect: continue with the cache under this key.
    Lookup(QueryKey, Decision),
}

/// Decide the path for one inbound datagram: drop, FORMERR, synthesized
/// block, or continue to the cache, with the classifier's decision pinned
/// to the scoring functions above.
pub fn plan_query(
    buf: &Vec<u8>,
    threats: &ThreatIndex,
    weights: &WeightTable,
    fcfg: &FeatureConfig,
) -> (r: QueryPlan)
    requires
        threats.wf(),
        wf_weights(*weights),
    ensures
        (r is Drop) == (spec_parse(buf@) is None),
        spec_parse(buf@) matches Some(v) ==> {
            let nm = normalize_seq(v.qname);
            let f = spec_features(nm, *fcfg);
            let t = threats.spec_contains(nm);
            &&& (r is Formerr) == !query_admissible(v)
            &&& (r matches QueryPlan::Formerr(bytes) ==> spec_parse(bytes@) == Some(
                response_view(v, RCODE_FORMERR),
            ))
            &&& (query_admissible(v) ==> ((r is Block) == (spec_verdict(f, t, *weights)
                == Verdict::Block)))
            &&& (r matches QueryPlan::Block(bytes, d) ==> query_admissible(v) && spec_parse(
                bytes@,
            ) == Some(response_view(v, RCODE_NXDOMAIN)) && d.verdict == Verdict::Block
                && d.verdict == spec_verdict(f, t, *weights) && reasons_view(d.reasons)
                == spec_reasons(f, t) && d.confidence_milli == spec_confidence_milli(
                f,
                t,
                *weights,
            ))
            &&& (r matches QueryPlan::Lookup(key, d) ==> query_admissible(v) && key_view(key) == (
            nm, v.qtype) && d.verdict == spec_verdict(f, t, *weights) && d.verdict
                != Verdict::Block && reasons_view(d.reasons) == spec_reasons(f, t)
                && d.confidence_milli == spec_confidence_milli(f, t, *weights))
        },
{
    let parsed = parse_message(buf);
    let m = match parsed {
        Err(_) => {
            return QueryPlan::Drop;
        },
        Ok(m) => m,
    };
    let ghost v = spec_parse(buf@).unwrap();
    proof {
        assert(message_view(m) == v);
        // header fields read from wire bytes are in range
        assert(v.header.opcode < 16 && v.header.z < 8 && v.header.rcode < 16);
        if m.question is Some {
            lemma_decode_labels_ok(buf@, 12);
        }
    }
    if m.header.qdcount != 1 {
        let bytes = build_response(&m, RCODE_FORMERR);
        return QueryPlan::Formerr(bytes);
    }
    let q = match &m.question {
        None => {
            let bytes = build_response(&m, RCODE_FORMERR);
            return QueryPlan::Formerr(bytes);
        },
        Some(q) => q,
    };
    let name = match Name::normalize(&q.qname) {
        Err(_) => {
            let bytes = build_response(&m, RCODE_FORMERR);
            return QueryPlan::Formerr(bytes);
        },
        Ok(name) => name,
    };
    let features = extract_features(&name, fcfg);
    let in_threat = threats.contains(name.as_bytes());
    let decision = classify(&features, in_threat, weights);
    let blocked = match decision.verdict {
        Verdict::Block => true,
        _ => false,
    };
    if blocked {
        let bytes = build_response(&m, RCODE_NXDOMAIN);
        QueryPlan::Block(bytes, decision)
    } else {
        let qtype = q.qtype;
        QueryPlan::Lookup(QueryKey { name, qtype }, decision)
    }
}

/// Clamp a response's time-to-live into the configured band.
pub fn clamp_ttl(ttl_s: u32, min_cache_ttl_s: u32, max_cache_ttl_s: u32) -> (r: u32)
    requires
        min_cache_ttl_s <= max_cache_ttl_s,
    ensures
        r == if ttl_s < min_cache_ttl_s {
            min_cache_ttl_s
        } else if ttl_s > max_cache_ttl_s {
            max_cache_ttl_s
        } else {
            ttl_s
        },
{
    if ttl_s < min_cache_ttl_s {
        min_cache_ttl_s
    } else if ttl_s > max_cache_ttl_s {
        max_cache_ttl_s
    } else {
        ttl_s
    }
}

/// The combined detector verdict for one name: membership plus the
/// heuristic score, labelled for telemetry.
pub struct ThreatResult {
    pub is_threat: bool,
    pub threat_type: String,
    pub confidence_milli: u32,
    pub reasons: Vec<String>,
}

/// Run the full detector on a normalized name: the exact threat-set
/// membership first, then the weighted classifier; the result carries
/// the verdict, its label, the confidence and the reasons.
pub fn detect_threat(
    domain: &Name,
    threats: &ThreatIndex,
    weights: &WeightTable,
    fcfg: &FeatureConfig,
) -> (r: ThreatResult)
    requires
        domain.wf(),
        threats.wf(),
        wf_weights(*weights),
    ensures
        ({
            let f = spec_features(domain@, *fcfg);
            let t = threats.spec_contains(domain@);
            let v = spec_verdict(f, t, *weights);
            &&& r.is_threat == (v == Verdict::Block)
            &&& r.threat_type@ == spec_threat_type(f, t, v)
            &&& reasons_view(r.reasons) == spec_reasons(f, t)
            &&& r.confidence_milli == spec_confidence_milli(f, t, *weights)
        }),
{
    let f = extract_features(domain, fcfg);
    let in_threat = threats.contains(domain.as_bytes());
    let d = classify(&f, in_threat, weights);
    let is_threat = match d.verdict {
        Verdict::Block => true,
        _ => false,
    };
    let threat_type = threat_type_of(&f, in_threat, &d.verdict);
    ThreatResult { is_threat, threat_type, confidence_milli: d.confidence_milli, reasons: d.reasons }
}

/// Replay at the name level: under one weight table, one feature
/// configuration and one threat membership, a name always yields the same
/// verdict, reasons and confidence.
pub proof fn lemma_decision_replay(
    n: Seq<u8>,
    in_threat: bool,
    w: WeightTable,
    fcfg: FeatureConfig,
    v1: Verdict,
    v2: Verdict,
    r1: Seq<Seq<char>>,
    r2: Seq<Seq<char>>,
    c1: int,
    c2: int,
)
    requires
        v1 == spec_verdict(spec_features(n, fcfg), in_threat, w),
        v2 == spec_verdict(spec_features(n, fcfg), in_threat, w),
        r1 == spec_reasons(spec_features(n, fcfg), in_threat),
        r2 == spec_reasons(spec_features(n, fcfg), in_threat),
        c1 == spec_confidence_milli(spec_features(n, fcfg), in_threat, w),
        c2 == spec_confidence_milli(spec_features(n, fcfg), in_threat, w),
    ensures
        v1 == v2,
        r1 == r2,
        c1 == c2,
{
}

} // verus!
