use bhai_dns::cache::{CacheEntry, LookupResult, Origin, QueryKey, ResponseCache};
use bhai_dns::classify::{Verdict, WeightTable};
use bhai_dns::codec::{min_answer_ttl, parse_message, serialize_message, DnsMessage, Header, Question};
use bhai_dns::features::default_feature_config;
use bhai_dns::name::Name;
use bhai_dns::pipeline::{
    build_response, clamp_ttl, plan_query, QueryPlan, RCODE_FORMERR, RCODE_NXDOMAIN,
    RCODE_SERVFAIL,
};
use bhai_dns::threat::{filter_params, ThreatIndex};

fn name(s: &str) -> Name {
    Name::normalize(&s.as_bytes().to_vec()).unwrap()
}

fn key(s: &str, qtype: u16) -> QueryKey {
    QueryKey { name: name(s), qtype }
}

fn entry(bytes: &[u8], inserted_at: u64, expires_at: u64) -> CacheEntry {
    CacheEntry {
        wire_bytes: bytes.to_vec(),
        inserted_at,
        expires_at,
        origin: Origin::Upstream(0),
    }
}

fn query_bytes(id: u16, name: &str, qtype: u16) -> Vec<u8> {
    let m = DnsMessage {
        header: Header {
            id,
            qr: false,
            opcode: 0,
            aa: false,
            tc: false,
            rd: true,
            ra: false,
            z: 0,
            rcode: 0,
            qdcount: 1,
            ancount: 0,
            nscount: 0,
            arcount: 0,
        },
        question: Some(Question { qname: name.as_bytes().to_vec(), qtype, qclass: 1 }),
    };
    serialize_message(&m)
}

fn small_index() -> ThreatIndex {
    let (bits, hashes) = filter_params(100, 1000);
    ThreatIndex::new(bits, hashes)
}

#[test]
fn store_then_lookup_within_ttl_returns_the_entry() {
    let mut c = ResponseCache::new(8);
    let k = key("example.com", 1);
    c.store(&k, entry(b"reply", 100, 400), 100);
    match c.lookup(&k, 200) {
        LookupResult::Hit(e) => {
            assert_eq!(e.wire_bytes, b"reply".to_vec());
            assert_eq!(e.inserted_at, 100);
            assert_eq!(e.expires_at, 400);
        },
        _ => panic!("expected a hit"),
    }
}

#[test]
fn expired_entry_is_treated_as_absent() {
    let mut c = ResponseCache::new(8);
    let k = key("example.com", 1);
    c.store(&k, entry(b"reply", 100, 400), 100);
    match c.lookup(&k, 400) {
        LookupResult::Miss => {},
        _ => panic!("expected a miss at the expiry instant"),
    }
}

#[test]
fn single_flight_makes_later_missers_wait() {
    let mut c = ResponseCache::new(8);
    let k = key("example.com", 1);
    assert!(matches!(c.lookup(&k, 10), LookupResult::Miss));
    // the key is now in flight: a second miss joins it
    assert!(matches!(c.lookup(&k, 11), LookupResult::Pending));
    // a different key gets its own fill
    let k2 = key("example.org", 1);
    assert!(matches!(c.lookup(&k2, 12), LookupResult::Miss));
    // the store wakes the key's waiters and later lookups hit
    c.store(&k, entry(b"r", 13, 500), 13);
    assert!(matches!(c.lookup(&k, 14), LookupResult::Hit(_)));
}

#[test]
fn abort_releases_the_single_flight_slot() {
    let mut c = ResponseCache::new(8);
    let k = key("example.com", 1);
    assert!(matches!(c.lookup(&k, 10), LookupResult::Miss));
    c.abort(&k);
    // the slot is free again: the next misser becomes the filler
    assert!(matches!(c.lookup(&k, 11), LookupResult::Miss));
}

#[test]
fn eviction_prefers_an_expired_entry_over_the_oldest() {
    let mut c = ResponseCache::new(2);
    // k1 is oldest but still live; k2 is newer and expired at t=150
    let k1 = key("old-but-live.example", 1);
    let k2 = key("new-but-expired.example", 1);
    c.store(&k1, entry(b"a", 10, 1000), 10);
    c.store(&k2, entry(b"b", 20, 120), 20);
    let k3 = key("fresh.example", 1);
    c.store(&k3, entry(b"c", 150, 500), 150);
    // the expired k2 went; the older live k1 survived
    assert!(matches!(c.lookup(&k1, 160), LookupResult::Hit(_)));
    assert!(matches!(c.lookup(&k3, 160), LookupResult::Hit(_)));
}

#[test]
fn eviction_falls_back_to_the_oldest_insertion() {
    let mut c = ResponseCache::new(2);
    let k1 = key("oldest.example", 1);
    let k2 = key("newer.example", 1);
    c.store(&k1, entry(b"a", 10, 1000), 10);
    c.store(&k2, entry(b"b", 20, 1000), 20);
    let k3 = key("fresh.example", 1);
    c.store(&k3, entry(b"c", 30, 1000), 30);
    assert!(matches!(c.lookup(&k1, 40), LookupResult::Miss));
    assert!(matches!(c.lookup(&k2, 41), LookupResult::Hit(_)));
}

#[test]
fn threat_index_add_and_contains() {
    let mut t = small_index();
    assert!(!t.contains(&b"evil.example".to_vec()));
    t.add(&b"evil.example".to_vec());
    assert!(t.contains(&b"evil.example".to_vec()));
    assert!(!t.contains(&b"good.example".to_vec()));
    assert_eq!(t.len(), 1);
}

#[test]
fn threat_index_remove_rebuilds() {
    let mut t = small_index();
    t.add(&b"evil.example".to_vec());
    t.add(&b"worse.example".to_vec());
    t.remove(&b"evil.example".to_vec());
    assert!(!t.contains(&b"evil.example".to_vec()));
    assert!(t.contains(&b"worse.example".to_vec()));
}

#[test]
fn replace_all_makes_exactly_the_batch_contained() {
    let mut t = small_index();
    t.add(&b"stale.example".to_vec());
    let batch = vec![b"one.example".to_vec(), b"two.example".to_vec()];
    t.replace_all(&batch);
    assert!(t.contains(&b"one.example".to_vec()));
    assert!(t.contains(&b"two.example".to_vec()));
    assert!(!t.contains(&b"stale.example".to_vec()));
}

#[test]
fn allow_path_plans_a_cache_lookup() {
    let t = small_index();
    let w = WeightTable::defaults();
    let cfg = default_feature_config();
    let buf = query_bytes(0x77, "example.com", 1);
    match plan_query(&buf, &t, &w, &cfg) {
        QueryPlan::Lookup(k, d) => {
            assert_eq!(k.name.as_bytes(), &b"example.com".to_vec());
            assert_eq!(k.qtype, 1);
            assert!(matches!(d.verdict, Verdict::Allow));
        },
        _ => panic!("expected the allow path"),
    }
}

#[test]
fn known_malicious_is_blocked_with_nxdomain() {
    let mut t = small_index();
    t.add(&b"evil.example".to_vec());
    let w = WeightTable::defaults();
    let cfg = default_feature_config();
    let buf = query_bytes(0x42, "evil.example", 1);
    match plan_query(&buf, &t, &w, &cfg) {
        QueryPlan::Block(bytes, d) => {
            assert!(matches!(d.verdict, Verdict::Block));
            assert_eq!(d.reasons, vec!["known_malicious".to_string()]);
            let reply = parse_message(&bytes).unwrap();
            assert_eq!(reply.header.id, 0x42);
            assert!(reply.header.qr);
            assert!(reply.header.ra);
            assert!(reply.header.rd);
            assert_eq!(reply.header.rcode, RCODE_NXDOMAIN);
            assert_eq!(reply.header.ancount, 0);
            let q = reply.question.unwrap();
            assert_eq!(q.qname, b"evil.example".to_vec());
        },
        _ => panic!("expected a block"),
    }
}

#[test]
fn heuristic_block_through_the_pipeline() {
    let t = small_index();
    let w = WeightTable::defaults();
    let cfg = default_feature_config();
    let buf = query_bytes(0x43, "paypa1-verification-login.tk", 1);
    match plan_query(&buf, &t, &w, &cfg) {
        QueryPlan::Block(bytes, d) => {
            let reply = parse_message(&bytes).unwrap();
            assert_eq!(reply.header.rcode, RCODE_NXDOMAIN);
            assert!(d.reasons.contains(&"Contains suspicious patterns".to_string()));
            assert!(d.reasons.contains(&"Uses suspicious top-level domain".to_string()));
        },
        _ => panic!("expected a heuristic block"),
    }
}

#[test]
fn garbage_datagram_is_dropped() {
    let t = small_index();
    let w = WeightTable::defaults();
    let cfg = default_feature_config();
    assert!(matches!(plan_query(&b"xx".to_vec(), &t, &w, &cfg), QueryPlan::Drop));
}

#[test]
fn zero_questions_gets_formerr() {
    let t = small_index();
    let w = WeightTable::defaults();
    let cfg = default_feature_config();
    let m = DnsMessage {
        header: Header {
            id: 5,
            qr: false,
            opcode: 0,
            aa: false,
            tc: false,
            rd: false,
            ra: false,
            z: 0,
            rcode: 0,
            qdcount: 0,
            ancount: 0,
            nscount: 0,
            arcount: 0,
        },
        question: None,
    };
    let buf = serialize_message(&m);
    match plan_query(&buf, &t, &w, &cfg) {
        QueryPlan::Formerr(bytes) => {
            let reply = parse_message(&bytes).unwrap();
            assert_eq!(reply.header.id, 5);
            assert_eq!(reply.header.rcode, RCODE_FORMERR);
        },
        _ => panic!("expected FORMERR"),
    }
}

#[test]
fn servfail_reply_preserves_id_and_question() {
    let buf = query_bytes(0x99, "example.com", 1);
    let m = parse_message(&buf).unwrap();
    let bytes = build_response(&m, RCODE_SERVFAIL);
    let reply = parse_message(&bytes).unwrap();
    assert_eq!(reply.header.id, 0x99);
    assert_eq!(reply.header.rcode, RCODE_SERVFAIL);
    assert_eq!(reply.question.unwrap().qname, b"example.com".to_vec());
}

#[test]
fn ttl_is_clamped_into_the_configured_band() {
    assert_eq!(clamp_ttl(3600, 60, 86400), 3600);
    assert_eq!(clamp_ttl(5, 60, 86400), 60);
    assert_eq!(clamp_ttl(1000000, 60, 86400), 86400);
}

#[test]
fn empty_question_name_gets_formerr() {
    let t = small_index();
    let w = WeightTable::defaults();
    let cfg = default_feature_config();
    let m = DnsMessage {
        header: Header {
            id: 6,
            qr: false,
            opcode: 0,
            aa: false,
            tc: false,
            rd: true,
            ra: false,
            z: 0,
            rcode: 0,
            qdcount: 1,
            ancount: 0,
            nscount: 0,
            arcount: 0,
        },
        question: Some(Question { qname: Vec::new(), qtype: 1, qclass: 1 }),
    };
    let buf = serialize_message(&m);
    match plan_query(&buf, &t, &w, &cfg) {
        QueryPlan::Formerr(bytes) => {
            let reply = parse_message(&bytes).unwrap();
            assert_eq!(reply.header.rcode, RCODE_FORMERR);
            assert_eq!(reply.header.id, 6);
        },
        _ => panic!("an empty name must get FORMERR"),
    }
}

/// One answer record: a two-label name, type A, class IN, the given TTL,
/// and a four-byte address.
fn answer_record(ttl: u32) -> Vec<u8> {
    let mut r: Vec<u8> = Vec::new();
    r.extend_from_slice(&[1, b'a', 0]); // name "a"
    r.extend_from_slice(&[0, 1, 0, 1]); // type A, class IN
    r.extend_from_slice(&ttl.to_be_bytes());
    r.extend_from_slice(&[0, 4, 93, 184, 216, 34]); // rdlength 4 + address
    r
}

#[test]
fn min_answer_ttl_takes_the_least_record_ttl() {
    // header: id 1, ancount 2, qdcount 1
    let mut b: Vec<u8> = vec![0, 1, 0x80, 0, 0, 1, 0, 2, 0, 0, 0, 0];
    // question: "a", type A, class IN
    b.extend_from_slice(&[1, b'a', 0, 0, 1, 0, 1]);
    b.extend_from_slice(&answer_record(300));
    b.extend_from_slice(&answer_record(120));
    assert_eq!(min_answer_ttl(&b), Some(120));
}

#[test]
fn min_answer_ttl_is_nothing_without_answers() {
    let buf = query_bytes(1, "example.com", 1);
    assert_eq!(min_answer_ttl(&buf), None);
    assert_eq!(min_answer_ttl(&b"short".to_vec()), None);
}

#[test]
fn min_answer_ttl_reads_through_compression_pointers() {
    let mut b: Vec<u8> = vec![0, 1, 0x80, 0, 0, 1, 0, 1, 0, 0, 0, 0];
    b.extend_from_slice(&[1, b'a', 0, 0, 1, 0, 1]);
    // answer whose name is a pointer back to the question name
    b.extend_from_slice(&[0xC0, 12]);
    b.extend_from_slice(&[0, 1, 0, 1]);
    b.extend_from_slice(&3600u32.to_be_bytes());
    b.extend_from_slice(&[0, 4, 1, 2, 3, 4]);
    assert_eq!(min_answer_ttl(&b), Some(3600));
}
