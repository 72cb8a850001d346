use bhai_dns::codec::{parse_message, serialize_message, DnsMessage, Header, Question};
use bhai_dns::name::Name;

fn req_header(id: u16, qd: u16) -> Header {
    Header {
        id,
        qr: false,
        opcode: 0,
        aa: false,
        tc: false,
        rd: true,
        ra: false,
        z: 0,
        rcode: 0,
        qdcount: qd,
        ancount: 0,
        nscount: 0,
        arcount: 0,
    }
}

fn query_bytes(id: u16, name: &str, qtype: u16) -> Vec<u8> {
    let m = DnsMessage {
        header: req_header(id, 1),
        question: Some(Question { qname: name.as_bytes().to_vec(), qtype, qclass: 1 }),
    };
    serialize_message(&m)
}

#[test]
fn normalize_lowercases_and_strips_trailing_dot() {
    let n = Name::normalize(&b"ExAmPle.COM.".to_vec()).unwrap();
    assert_eq!(n.as_bytes(), &b"example.com".to_vec());
}

#[test]
fn normalize_is_idempotent_on_concrete_name() {
    let once = Name::normalize(&b"ExAmPle.COM.".to_vec()).unwrap();
    let twice = Name::normalize(once.as_bytes()).unwrap();
    assert!(once.same_as(&twice));
}

#[test]
fn empty_name_is_rejected() {
    assert!(Name::normalize(&b"".to_vec()).is_err());
    assert!(Name::normalize(&b".".to_vec()).is_err());
}

#[test]
fn empty_label_is_rejected() {
    assert!(Name::normalize(&b"a..b".to_vec()).is_err());
    assert!(Name::normalize(&b".a".to_vec()).is_err());
}

#[test]
fn name_of_253_bytes_with_127_labels_is_accepted() {
    // 127 single-byte labels joined by 126 dots: 253 bytes
    let mut s: Vec<u8> = Vec::new();
    for i in 0..127 {
        if i > 0 {
            s.push(b'.');
        }
        s.push(b'a');
    }
    assert_eq!(s.len(), 253);
    let n = Name::normalize(&s).unwrap();
    assert_eq!(n.len(), 253);
}

#[test]
fn name_of_254_bytes_is_rejected() {
    let mut s: Vec<u8> = Vec::new();
    for _ in 0..254 {
        s.push(b'a');
    }
    assert!(Name::normalize(&s).is_err());
}

#[test]
fn label_longer_than_63_is_rejected() {
    let mut s: Vec<u8> = Vec::new();
    for _ in 0..64 {
        s.push(b'a');
    }
    s.extend_from_slice(b".com");
    assert!(Name::normalize(&s).is_err());
}

#[test]
fn label_of_63_is_accepted() {
    let mut s: Vec<u8> = Vec::new();
    for _ in 0..63 {
        s.push(b'a');
    }
    s.extend_from_slice(b".com");
    assert!(Name::normalize(&s).is_ok());
}

#[test]
fn message_round_trips_through_the_codec() {
    let bytes = query_bytes(0x1234, "example.com", 1);
    let m = parse_message(&bytes).unwrap();
    assert_eq!(m.header.id, 0x1234);
    assert!(!m.header.qr);
    assert!(m.header.rd);
    assert_eq!(m.header.qdcount, 1);
    let q = m.question.as_ref().unwrap();
    assert_eq!(q.qname, b"example.com".to_vec());
    assert_eq!(q.qtype, 1);
    assert_eq!(q.qclass, 1);
    // and back again
    let again = serialize_message(&m);
    assert_eq!(again, bytes);
}

#[test]
fn parse_rejects_short_and_truncated_datagrams() {
    assert!(parse_message(&b"123".to_vec()).is_err());
    let mut bytes = query_bytes(7, "example.com", 1);
    bytes.truncate(bytes.len() - 3);
    assert!(parse_message(&bytes).is_err());
}

#[test]
fn parse_rejects_compression_pointers_in_the_question() {
    let mut bytes = query_bytes(7, "example.com", 1);
    // overwrite the first label length with a pointer marker
    bytes[12] = 0xC0;
    assert!(parse_message(&bytes).is_err());
}

#[test]
fn parse_accepts_header_only_message() {
    let m = DnsMessage { header: req_header(9, 0), question: None };
    let bytes = serialize_message(&m);
    assert_eq!(bytes.len(), 12);
    let p = parse_message(&bytes).unwrap();
    assert_eq!(p.header.id, 9);
    assert!(p.question.is_none());
}
