use bhai_dns::config::Config;
use bhai_dns::errors::{disposition_of, reply_rcode, Disposition, ErrorKind};
use bhai_dns::stats::{evaluate_rate_limit, ServerStats};
use bhai_dns::telemetry::{backoff_ms, QueryRecord, TelemetryTap};
use bhai_dns::typo::TypoCorrector;
use bhai_dns::upstream::{Phase, ResolveAction, UpstreamEvent, UpstreamPool};

fn record(name: &str) -> QueryRecord {
    QueryRecord {
        name: name.as_bytes().to_vec(),
        qtype: 1,
        client_addr: b"127.0.0.1:5000".to_vec(),
        started_at: 1,
        finished_at: 2,
        response_code: 0,
        threat_detected: false,
        cache_hit: false,
        upstream_used: Some(0),
        decision_reasons: Vec::new(),
    }
}

#[test]
fn round_robin_alternates_over_healthy_endpoints() {
    let mut pool = UpstreamPool::new(&vec![10, 11], 30_000, 3);
    assert_eq!(pool.select(0), Some(0));
    assert_eq!(pool.select(0), Some(1));
    assert_eq!(pool.select(0), Some(0));
}

#[test]
fn unhealthy_endpoint_is_skipped_until_cooldown_expires() {
    let mut pool = UpstreamPool::new(&vec![10, 11], 30_000, 3);
    pool.mark_unhealthy(0, 1_000);
    assert_eq!(pool.select(1_000), Some(1));
    assert_eq!(pool.select(2_000), Some(1));
    // past the cooldown the endpoint returns to rotation
    assert_eq!(pool.select(31_000), Some(0));
}

#[test]
fn all_unhealthy_fails_the_resolution_at_once() {
    let mut pool = UpstreamPool::new(&vec![10, 11], 30_000, 3);
    pool.mark_unhealthy(0, 1_000);
    pool.mark_unhealthy(1, 1_000);
    let (st, action) = pool.start_resolve(2_000);
    assert!(st.is_none());
    assert_eq!(action, ResolveAction::Fail);
}

#[test]
fn failover_walks_udp_tcp_then_the_next_endpoint() {
    let mut pool = UpstreamPool::new(&vec![10, 11], 30_000, 3);
    let (st, action) = pool.start_resolve(0);
    let st = st.unwrap();
    assert_eq!(action, ResolveAction::SendUdp(0));
    assert_eq!(st.phase, Phase::Udp);
    // UDP times out: same endpoint over TCP
    let (st2, action2) = pool.on_event(st, UpstreamEvent::Timeout, 10);
    let st2 = st2.unwrap();
    assert_eq!(action2, ResolveAction::SendTcp(0));
    // TCP times out: endpoint cools down, next endpoint over UDP
    let (st3, action3) = pool.on_event(st2, UpstreamEvent::Timeout, 20);
    let st3 = st3.unwrap();
    assert_eq!(action3, ResolveAction::SendUdp(1));
    // the reply from the second endpoint is delivered
    let (_, action4) = pool.on_event(st3, UpstreamEvent::Reply { truncated: false }, 30);
    assert_eq!(action4, ResolveAction::Deliver);
    // the first endpoint stays out of rotation during its cooldown
    assert_eq!(pool.select(100), Some(1));
}

#[test]
fn truncated_udp_reply_falls_back_to_tcp() {
    let mut pool = UpstreamPool::new(&vec![10], 30_000, 3);
    let (st, _) = pool.start_resolve(0);
    let (st2, action) = pool.on_event(st.unwrap(), UpstreamEvent::Reply { truncated: true }, 5);
    assert_eq!(action, ResolveAction::SendTcp(0));
    // a truncated TCP reply is still delivered
    let (_, action2) = pool.on_event(st2.unwrap(), UpstreamEvent::Reply { truncated: true }, 6);
    assert_eq!(action2, ResolveAction::Deliver);
}

#[test]
fn attempt_budget_exhausts_to_failure() {
    let mut pool = UpstreamPool::new(&vec![10, 11], 30_000, 1);
    let (st, _) = pool.start_resolve(0);
    let (st2, _) = pool.on_event(st.unwrap(), UpstreamEvent::Timeout, 1);
    let (st3, action) = pool.on_event(st2.unwrap(), UpstreamEvent::Failed, 2);
    assert!(st3.is_none());
    assert_eq!(action, ResolveAction::Fail);
}

#[test]
fn telemetry_drops_on_full_and_counts() {
    let mut tap = TelemetryTap::new(2);
    tap.offer(record("a.example"));
    tap.offer(record("b.example"));
    tap.offer(record("c.example"));
    assert_eq!(tap.queued_count(), 2);
    assert_eq!(tap.dropped_count(), 1);
    let drained = tap.drain();
    assert_eq!(drained.len(), 2);
    assert_eq!(drained[0].name, b"a.example".to_vec());
    assert_eq!(tap.queued_count(), 0);
    assert_eq!(tap.dropped_count(), 1);
}

#[test]
fn stats_fold_latency_into_the_moving_average() {
    let mut s = ServerStats::new();
    s.record_query(100, false, false);
    // (9 * 0 + 1000 * 100) / 10 milli-milliseconds
    assert_eq!(s.average_response_time_milli, 10_000);
    s.record_query(200, true, false);
    assert_eq!(s.average_response_time_milli, (9 * 10_000 + 1000 * 200) / 10);
    assert_eq!(s.total_queries, 2);
    assert_eq!(s.cache_hits, 1);
    assert_eq!(s.cache_hit_rate_permille(), 500);
}

#[test]
fn rate_limit_allows_within_and_denies_beyond() {
    let ok = evaluate_rate_limit(5, 10);
    assert!(ok.allowed);
    assert_eq!(ok.count, 5);
    assert_eq!(ok.remaining, 5);
    let over = evaluate_rate_limit(11, 10);
    assert!(!over.allowed);
    assert_eq!(over.remaining, 0);
}

#[test]
fn dispositions_follow_the_table() {
    assert_eq!(disposition_of(ErrorKind::ParseError), Disposition::SilentDrop);
    assert_eq!(disposition_of(ErrorKind::FormatError), Disposition::ReplyFormerr);
    assert_eq!(disposition_of(ErrorKind::UpstreamUnavailable), Disposition::ReplyServfail);
    assert_eq!(disposition_of(ErrorKind::DeadlineExceeded), Disposition::NoReply);
    assert_eq!(reply_rcode(ErrorKind::FormatError), Some(1));
    assert_eq!(reply_rcode(ErrorKind::UpstreamUnavailable), Some(2));
    assert_eq!(reply_rcode(ErrorKind::ParseError), None);
}

#[test]
fn levenshtein_matches_the_textbook_example() {
    let t = TypoCorrector::new();
    assert_eq!(t.levenshtein_distance(&b"kitten".to_vec(), &b"sitting".to_vec()), 3);
    assert_eq!(t.levenshtein_distance(&b"".to_vec(), &b"abc".to_vec()), 3);
    assert_eq!(t.levenshtein_distance(&b"same".to_vec(), &b"same".to_vec()), 0);
}

#[test]
fn close_typo_gets_the_unique_suggestion() {
    let t = TypoCorrector::new();
    let s = t.suggest(&b"gogle.com".to_vec());
    assert_eq!(s, Some(b"google.com".to_vec()));
}

#[test]
fn distant_name_gets_no_suggestion() {
    let t = TypoCorrector::new();
    assert_eq!(t.suggest(&b"completely-unrelated.example".to_vec()), None);
}

#[test]
fn correct_lists_candidates_closest_first() {
    let t = TypoCorrector::new();
    let c = t.correct(&b"gogle.com".to_vec());
    assert_eq!(c.original, b"gogle.com".to_vec());
    assert!(!c.suggestions.is_empty());
    assert_eq!(c.suggestions[0], b"google.com".to_vec());
    assert_eq!(c.confidence_milli, 800);
    let none = t.correct(&b"completely-unrelated.example".to_vec());
    assert!(none.suggestions.is_empty());
    assert_eq!(none.confidence_milli, 0);
}

#[test]
fn default_config_matches_the_documented_values() {
    let c = Config::default();
    assert_eq!(c.dns.port, 5353);
    assert_eq!(c.dns.cache_size, 10_000);
    assert_eq!(c.dns.upstream_servers.len(), 2);
    assert!(c.dns.enable_ai_features);
    assert_eq!(c.web.port, 8080);
    assert_eq!(c.analytics.metrics_port, 9090);
}

#[test]
fn sink_backoff_doubles_and_caps_at_thirty_seconds() {
    assert_eq!(backoff_ms(1_000, 0), 1_000);
    assert_eq!(backoff_ms(1_000, 1), 2_000);
    assert_eq!(backoff_ms(1_000, 4), 16_000);
    assert_eq!(backoff_ms(1_000, 5), 30_000);
    assert_eq!(backoff_ms(1_000, 20), 30_000);
}
