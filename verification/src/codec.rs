//! DNS wire codec for the messages the proxy emits and the queries it
//! accepts: a header and at most one question.
//!
//! Names are encoded as length-prefixed labels with a zero terminator;
//! labels of 64 bytes and up (including compression pointers) are
//! rejected. The round-trip law: parsing a serialized message gives the
//! message back.

use vstd::prelude::*;
use crate::name::DOT;

verus! {

/// A DNS header, fields broken out.
#[derive(Clone, Copy, PartialEq, Eq, Structural, Debug)]
pub struct Header {
    pub id: u16,
    pub qr: bool,
    pub opcode: u8,
    pub aa: bool,
    pub tc: bool,
    pub rd: bool,
    pub ra: bool,
    pub z: u8,
    pub rcode: u8,
    pub qdcount: u16,
    pub ancount: u16,
    pub nscount: u16,
    pub arcount: u16,
}

/// Field ranges of a header.
pub open spec fn header_wf(h: Header) -> bool {
    h.opcode < 16 && h.z < 8 && h.rcode < 16
}

/// One question: a presentation-form name plus type and class codes.
pub struct Question {
    pub qname: Vec<u8>,
    pub qtype: u16,
    pub qclass: u16,
}

/// A message the system parses or emits: header and at most one question.
pub struct DnsMessage {
    pub header: Header,
    pub question: Option<Question>,
}

/// The plain value of a message.
pub ghost struct MessageView {
    pub header: Header,
    pub has_question: bool,
    pub qname: Seq<u8>,
    pub qtype: u16,
    pub qclass: u16,
}

pub open spec fn message_view(m: DnsMessage) -> MessageView {
    match m.question {
        Some(q) => MessageView {
            header: m.header,
            has_question: true,
            qname: q.qname@,
            qtype: q.qtype,
            qclass: q.qclass,
        },
        None => MessageView {
            header: m.header,
            has_question: false,
            qname: Seq::empty(),
            qtype: 0,
            qclass: 0,
        },
    }
}

/// Index of the first dot, or the length if there is none.
pub open spec fn first_dot(s: Seq<u8>) -> int
    decreases s.len(),
{
    if s.len() == 0 {
        0
    } else if s[0] == DOT {
        0
    } else {
        1 + first_dot(s.drop_first())
    }
}

pub proof fn lemma_first_dot_char(s: Seq<u8>)
    ensures
        0 <= first_dot(s) <= s.len(),
        first_dot(s) < s.len() ==> s[first_dot(s)] == DOT,
        forall|j: int| 0 <= j < first_dot(s) ==> s[j] != DOT,
    decreases s.len(),
{
    if s.len() > 0 && s[0] != DOT {
        lemma_first_dot_char(s.drop_first());
        assert forall|j: int| 0 <= j < first_dot(s) implies s[j] != DOT by {
            if j > 0 {
                assert(s.drop_first()[j - 1] != DOT);
            }
        }
    }
}

/// The label structure a name must have to be encodable: every label
/// between one and 63 bytes.
pub open spec fn labels_ok(s: Seq<u8>) -> bool
    decreases s.len(),
{
    if s.len() == 0 {
        true
    } else {
        let d = first_dot(s);
        &&& 1 <= d <= 63
        &&& (d < s.len() ==> d + 1 < s.len() && labels_ok(s.skip(d + 1)))
    }
}

/// Length-prefixed label encoding with a zero terminator.
pub open spec fn encode_name(s: Seq<u8>) -> Seq<u8>
    decreases s.len(),
{
    if s.len() == 0 {
        seq![0u8]
    } else {
        let d = first_dot(s);
        if 0 <= d && d < s.len() {
            seq![d as u8] + s.take(d) + encode_name(s.skip(d + 1))
        } else {
            seq![d as u8] + s.take(d) + seq![0u8]
        }
    }
}

/// Some byte of `b` in `lo..hi` is a dot.
pub open spec fn dot_in_range(b: Seq<u8>, lo: int, hi: int) -> bool {
    exists|k: int| lo <= k < hi && #[trigger] b[k] == DOT
}

/// Decode labels at `pos`: the name in presentation form and the position
/// past the terminator. Labels longer than 63 bytes (compression
/// pointers included) and labels holding a dot byte are rejected, so the
/// presentation form is unambiguous.
pub open spec fn decode_labels(b: Seq<u8>, pos: int) -> Option<(Seq<u8>, int)>
    decreases b.len() - pos,
{
    if pos < 0 || pos >= b.len() {
        None
    } else if b[pos] == 0 {
        Some((Seq::empty(), pos + 1))
    } else {
        let l = b[pos] as int;
        if l > 63 || pos + 1 + l > b.len() || dot_in_range(b, pos + 1, pos + 1 + l) {
            None
        } else {
            match decode_labels(b, pos + 1 + l) {
                None => None,
                Some((rest, np)) => {
                    if rest.len() == 0 {
                        Some((b.subrange(pos + 1, pos + 1 + l), np))
                    } else {
                        Some((b.subrange(pos + 1, pos + 1 + l) + seq![DOT] + rest, np))
                    }
                },
            }
        }
    }
}

/// Decoding what `encode_name` wrote gives the name back and lands just
/// past its terminator, whatever bytes surround it.
pub proof fn lemma_decode_encode(s: Seq<u8>, b: Seq<u8>, pos: int)
    requires
        labels_ok(s),
        0 <= pos,
        pos + encode_name(s).len() <= b.len(),
        b.subrange(pos, pos + encode_name(s).len()) == encode_name(s),
    ensures
        decode_labels(b, pos) == Some((s, pos + encode_name(s).len())),
    decreases s.len(),
{
    let e = encode_name(s);
    if s.len() == 0 {
        assert(b[pos] == e[0]);
        assert(b[pos] == 0);
    } else {
        let d = first_dot(s);
        lemma_first_dot_char(s);
        assert(b[pos] == e[0]);
        assert(e[0] == d as u8);
        assert(b[pos] != 0);
        assert(b[pos] as int == d);
        // the label bytes are in place and none of them is a dot
        assert forall|k: int| 0 <= k < d implies b[pos + 1 + k] == s[k] by {
            assert(e[1 + k] == s.take(d)[k]);
            assert(b[pos + 1 + k] == e[1 + k]);
        }
        assert(!dot_in_range(b, pos + 1, pos + 1 + d)) by {
            if dot_in_range(b, pos + 1, pos + 1 + d) {
                let k = choose|k: int| pos + 1 <= k < pos + 1 + d && #[trigger] b[k] == DOT;
                assert(s[k - pos - 1] != DOT);
            }
        }
        if d == s.len() {
            // last label, then the terminator
            assert(b[pos + 1 + d] == e[1 + d]);
            assert(e[1 + d] == 0);
            assert(decode_labels(b, pos + 1 + d) == Some((Seq::<u8>::empty(), pos + d + 2)));
            assert(b.subrange(pos + 1, pos + 1 + d) =~= s);
            assert(e.len() == d + 2);
        } else {
            let tail = s.skip(d + 1);
            let et = encode_name(tail);
            assert(e =~= seq![d as u8] + s.take(d) + et);
            assert(e.len() == 1 + d + et.len());
            assert forall|k: int| 0 <= k < et.len() implies b.subrange(
                pos + 1 + d,
                pos + 1 + d + et.len(),
            )[k] == et[k] by {
                assert(b[pos + 1 + d + k] == e[1 + d + k]);
                assert(e[1 + d + k] == et[k]);
            }
            assert(b.subrange(pos + 1 + d, pos + 1 + d + et.len()) =~= et);
            lemma_decode_encode(tail, b, pos + 1 + d);
            assert(tail.len() > 0);
            assert(decode_labels(b, pos + 1 + d) == Some((tail, pos + 1 + d + et.len())));
            // reassembly: label + dot + tail is the original name
            assert(b.subrange(pos + 1, pos + 1 + d) =~= s.take(d));
            assert(s[d] == DOT);
            assert(s.take(d) + seq![DOT] + tail =~= s);
        }
    }
}

pub open spec fn u16_hi(x: u16) -> u8 {
    (x / 256) as u8
}

pub open spec fn u16_lo(x: u16) -> u8 {
    (x % 256) as u8
}

pub open spec fn flags_hi(h: Header) -> u8 {
    ((if h.qr {
        128int
    } else {
        0int
    }) + h.opcode * 8 + (if h.aa {
        4int
    } else {
        0int
    }) + (if h.tc {
        2int
    } else {
        0int
    }) + (if h.rd {
        1int
    } else {
        0int
    })) as u8
}

pub open spec fn flags_lo(h: Header) -> u8 {
    ((if h.ra {
        128int
    } else {
        0int
    }) + h.z * 16 + h.rcode) as u8
}

/// The twelve header bytes.
pub open spec fn spec_header_bytes(h: Header) -> Seq<u8> {
    seq![
        u16_hi(h.id),
        u16_lo(h.id),
        flags_hi(h),
        flags_lo(h),
        u16_hi(h.qdcount),
        u16_lo(h.qdcount),
        u16_hi(h.ancount),
        u16_lo(h.ancount),
        u16_hi(h.nscount),
        u16_lo(h.nscount),
        u16_hi(h.arcount),
        u16_lo(h.arcount),
    ]
}

pub open spec fn be16(hi: u8, lo: u8) -> u16 {
    (hi * 256 + lo) as u16
}

/// Read the header from the first twelve bytes.
pub open spec fn spec_parse_header(b: Seq<u8>) -> Header {
    Header {
        id: be16(b[0], b[1]),
        qr: b[2] / 128 == 1,
        opcode: ((b[2] / 8) % 16) as u8,
        aa: (b[2] / 4) % 2 == 1,
        tc: (b[2] / 2) % 2 == 1,
        rd: b[2] % 2 == 1,
        ra: b[3] / 128 == 1,
        z: ((b[3] / 16) % 8) as u8,
        rcode: (b[3] % 16) as u8,
        qdcount: be16(b[4], b[5]),
        ancount: be16(b[6], b[7]),
        nscount: be16(b[8], b[9]),
        arcount: be16(b[10], b[11]),
    }
}

/// A message the system may emit: a well-formed header whose question
/// count matches the question, and an encodable question name.
pub open spec fn view_wf(v: MessageView) -> bool {
    &&& header_wf(v.header)
    &&& v.has_question ==> labels_ok(v.qname) && v.header.qdcount == 1
    &&& !v.has_question ==> v.header.qdcount == 0 && v.qname == Seq::<u8>::empty() && v.qtype == 0
        && v.qclass == 0
}

/// The wire form of a message.
pub open spec fn spec_serialize(v: MessageView) -> Seq<u8> {
    if v.has_question {
        spec_header_bytes(v.header) + encode_name(v.qname) + seq![
            u16_hi(v.qtype),
            u16_lo(v.qtype),
            u16_hi(v.qclass),
            u16_lo(v.qclass),
        ]
    } else {
        spec_header_bytes(v.header)
    }
}

/// Parse a datagram: the header, and the first question when the header
/// announces one. Trailing bytes are ignored.
pub open spec fn spec_parse(b: Seq<u8>) -> Option<MessageView> {
    if b.len() < 12 {
        None
    } else {
        let h = spec_parse_header(b);
        if h.qdcount == 0 {
            Some(
                MessageView {
                    header: h,
                    has_question: false,
                    qname: Seq::empty(),
                    qtype: 0,
                    qclass: 0,
                },
            )
        } else {
            match decode_labels(b, 12) {
                None => None,
                Some((qname, np)) => {
                    if np + 4 <= b.len() {
                        Some(
                            MessageView {
                                header: h,
                                has_question: true,
                                qname,
                                qtype: be16(b[np], b[np + 1]),
                                qclass: be16(b[np + 2], b[np + 3]),
                            },
                        )
                    } else {
                        None
                    }
                },
            }
        }
    }
}

/// Recover every header field from its two flag bytes.
proof fn lemma_header_round_trip(h: Header, b: Seq<u8>)
    requires
        header_wf(h),
        b.len() >= 12,
        b.subrange(0, 12) == spec_header_bytes(h),
    ensures
        spec_parse_header(b) == h,
{
    assert forall|k: int| 0 <= k < 12 implies b[k] == spec_header_bytes(h)[k] by {
        assert(b.subrange(0, 12)[k] == b[k]);
    }
    let qrb: u8 = if h.qr {
        1
    } else {
        0
    };
    let aab: u8 = if h.aa {
        1
    } else {
        0
    };
    let tcb: u8 = if h.tc {
        1
    } else {
        0
    };
    let rdb: u8 = if h.rd {
        1
    } else {
        0
    };
    let rab: u8 = if h.ra {
        1
    } else {
        0
    };
    let op = h.opcode;
    let zz = h.z;
    let rc = h.rcode;
    let hi = flags_hi(h);
    let lo = flags_lo(h);
    assert(hi == qrb * 128 + op * 8 + aab * 4 + tcb * 2 + rdb);
    assert(lo == rab * 128 + zz * 16 + rc);
    assert(hi / 128 == qrb && (hi / 8) % 16 == op && (hi / 4) % 2 == aab && (hi / 2) % 2 == tcb
        && hi % 2 == rdb) by (bit_vector)
        requires
            hi == qrb * 128 + op * 8 + aab * 4 + tcb * 2 + rdb,
            qrb <= 1,
            op < 16,
            aab <= 1,
            tcb <= 1,
            rdb <= 1,
    ;
    assert(lo / 128 == rab && (lo / 16) % 8 == zz && lo % 16 == rc) by (bit_vector)
        requires
            lo == rab * 128 + zz * 16 + rc,
            rab <= 1,
            zz < 8,
            rc < 16,
    ;
    assert(be16(u16_hi(h.id), u16_lo(h.id)) == h.id);
    assert(be16(u16_hi(h.qdcount), u16_lo(h.qdcount)) == h.qdcount);
    assert(be16(u16_hi(h.ancount), u16_lo(h.ancount)) == h.ancount);
    assert(be16(u16_hi(h.nscount), u16_lo(h.nscount)) == h.nscount);
    assert(be16(u16_hi(h.arcount), u16_lo(h.arcount)) == h.arcount);
}

/// Round trip: parsing a serialized message yields the message back.
/// This holds of every message the system emits.
pub proof fn lemma_parse_serialize(v: MessageView)
    requires
        view_wf(v),
    ensures
        spec_parse(spec_serialize(v)) == Some(v),
{
    let b = spec_serialize(v);
    assert(b.subrange(0, 12) =~= spec_header_bytes(v.header));
    lemma_header_round_trip(v.header, b);
    if v.has_question {
        let e = encode_name(v.qname);
        assert(b.subrange(12, 12 + e.len() as int) =~= e);
        lemma_decode_encode(v.qname, b, 12);
        let np: int = 12 + e.len() as int;
        assert(b[np] == u16_hi(v.qtype) && b[np + 1] == u16_lo(v.qtype) && b[np + 2] == u16_hi(
            v.qclass,
        ) && b[np + 3] == u16_lo(v.qclass));
        assert(be16(u16_hi(v.qtype), u16_lo(v.qtype)) == v.qtype);
        assert(be16(u16_hi(v.qclass), u16_lo(v.qclass)) == v.qclass);
        assert(spec_parse(b) == Some(v));
    } else {
        assert(spec_parse(b) == Some(v));
    }
}

/// Every decoded name has encodable label structure and is no longer
/// than the bytes it was read from.
pub proof fn lemma_decode_labels_ok(b: Seq<u8>, pos: int)
    requires
        decode_labels(b, pos) is Some,
    ensures
        labels_ok(decode_labels(b, pos).unwrap().0),
        pos < decode_labels(b, pos).unwrap().1 <= b.len(),
        decode_labels(b, pos).unwrap().0.len() + pos + 1 <= decode_labels(b, pos).unwrap().1,
    decreases b.len() - pos,
{
    if b[pos] == 0 {
    } else {
        let l = b[pos] as int;
        lemma_decode_labels_ok(b, pos + 1 + l);
        let (rest, np) = decode_labels(b, pos + 1 + l).unwrap();
        let (name, _) = decode_labels(b, pos).unwrap();
        if rest.len() == 0 {
            assert(name =~= b.subrange(pos + 1, pos + 1 + l));
            lemma_first_dot_char(name);
            assert(first_dot(name) == l) by {
                if first_dot(name) < l {
                    assert(name[first_dot(name)] == DOT);
                    assert(b[pos + 1 + first_dot(name)] == DOT);
                    assert(dot_in_range(b, pos + 1, pos + 1 + l));
                }
            }
        } else {
            let lab = b.subrange(pos + 1, pos + 1 + l);
            assert(name =~= lab + seq![DOT] + rest);
            assert(name[l] == DOT);
            lemma_first_dot_char(name);
            assert(first_dot(name) == l) by {
                if first_dot(name) < l {
                    assert(name[first_dot(name)] == DOT);
                    assert(b[pos + 1 + first_dot(name)] == DOT);
                    assert(dot_in_range(b, pos + 1, pos + 1 + l));
                }
                if first_dot(name) > l {
                    assert(name[l] != DOT);
                }
            }
            assert(name.skip(l + 1) =~= rest);
        }
    }
}

/// Presentation names joined across a consumed label prefix.
pub open spec fn join_names(a: Seq<u8>, b: Seq<u8>) -> Seq<u8> {
    if a.len() == 0 {
        b
    } else if b.len() == 0 {
        a
    } else {
        a + seq![DOT] + b
    }
}

/// A malformed inbound datagram; it is dropped silently.
#[derive(Clone, Copy, PartialEq, Eq, Structural, Debug)]
pub struct ParseError;

fn be16_hi(x: u16) -> (r: u8)
    ensures
        r == u16_hi(x),
{
    (x / 256) as u8
}

fn be16_lo(x: u16) -> (r: u8)
    ensures
        r == u16_lo(x),
{
    (x % 256) as u8
}

fn read_be16(hi: u8, lo: u8) -> (r: u16)
    ensures
        r == be16(hi, lo),
{
    (hi as u16) * 256 + (lo as u16)
}

/// Parse a datagram into a header and its first question, exactly as
/// `spec_parse` reads it.
pub fn parse_message(buf: &Vec<u8>) -> (r: Result<DnsMessage, ParseError>)
    ensures
        r is Ok <==> spec_parse(buf@) is Some,
        r matches Ok(m) ==> Some(message_view(m)) == spec_parse(buf@),
{
    if buf.len() < 12 {
        return Err(ParseError);
    }
    let f_hi = buf[2];
    let f_lo = buf[3];
    let header = Header {
        id: read_be16(buf[0], buf[1]),
        qr: f_hi / 128 == 1,
        opcode: (f_hi / 8) % 16,
        aa: (f_hi / 4) % 2 == 1,
        tc: (f_hi / 2) % 2 == 1,
        rd: f_hi % 2 == 1,
        ra: f_lo / 128 == 1,
        z: (f_lo / 16) % 8,
        rcode: f_lo % 16,
        qdcount: read_be16(buf[4], buf[5]),
        ancount: read_be16(buf[6], buf[7]),
        nscount: read_be16(buf[8], buf[9]),
        arcount: read_be16(buf[10], buf[11]),
    };
    proof {
        assert(header == spec_parse_header(buf@));
    }
    if header.qdcount == 0 {
        let m = DnsMessage { header, question: None };
        proof {
            assert(Some(message_view(m)) == spec_parse(buf@));
        }
        return Ok(m);
    }
    // decode the question name
    let n = buf.len();
    let mut pos: usize = 12;
    let mut name: Vec<u8> = Vec::new();
    loop
        invariant
            n == buf@.len(),
            12 <= pos <= n,
            header == spec_parse_header(buf@),
            header.qdcount != 0,
            decode_labels(buf@, pos as int) is None ==> decode_labels(buf@, 12) is None,
            decode_labels(buf@, pos as int) matches Some((rest, np)) ==> decode_labels(buf@, 12)
                == Some((join_names(name@, rest), np)),
        ensures
            decode_labels(buf@, 12) == Some((name@, pos as int + 1)),
            pos < n,
            buf@[pos as int] == 0,
            header == spec_parse_header(buf@),
            header.qdcount != 0,
            n == buf@.len(),
        decreases n - pos,
    {
        if pos >= n {
            proof {
                assert(decode_labels(buf@, pos as int) is None);
            }
            return Err(ParseError);
        }
        let l = buf[pos];
        if l == 0 {
            proof {
                assert(decode_labels(buf@, pos as int) == Some((
                    Seq::<u8>::empty(),
                    pos as int + 1,
                )));
                assert(join_names(name@, Seq::<u8>::empty()) == name@);
            }
            break ;
        }
        let avail = n - (pos + 1);
        if l > 63 || (l as usize) > avail {
            proof {
                assert(decode_labels(buf@, pos as int) is None);
            }
            return Err(ParseError);
        }
        let ll = l as usize;
        // scan the label for dot bytes; they would make the presentation
        // form ambiguous
        let mut k: usize = 0;
        while k < ll
            invariant
                n == buf@.len(),
                12 <= pos < n,
                pos + 1 + ll <= n,
                l == buf@[pos as int],
                0 < l <= 63,
                ll == l as usize,
                header == spec_parse_header(buf@),
                header.qdcount != 0,
                decode_labels(buf@, pos as int) is None ==> decode_labels(buf@, 12) is None,
                k <= ll,
                forall|j: int| 0 <= j < k ==> #[trigger] buf@[pos + 1 + j] != DOT,
            decreases ll - k,
        {
            if buf[pos + 1 + k] == DOT {
                proof {
                    assert(buf@[pos as int + 1 + k as int] == DOT);
                    assert(dot_in_range(buf@, pos as int + 1, pos as int + 1 + ll));
                    assert(decode_labels(buf@, pos as int) is None);
                }
                return Err(ParseError);
            }
            k += 1;
        }
        proof {
            assert(!dot_in_range(buf@, pos as int + 1, pos as int + 1 + ll)) by {
                if dot_in_range(buf@, pos as int + 1, pos as int + 1 + ll) {
                    let j = choose|j: int|
                        pos + 1 <= j < pos + 1 + ll && #[trigger] buf@[j] == DOT;
                    assert(buf@[pos as int + 1 + (j - pos - 1)] != DOT);
                }
            }
        }
        let ghost pre_name = name@;
        // append the label, preceded by a dot when labels came before
        if name.len() > 0 {
            name.push(DOT);
        }
        let mut k: usize = 0;
        while k < ll
            invariant
                n == buf@.len(),
                12 <= pos < n,
                pos + 1 + ll <= n,
                l == buf@[pos as int],
                0 < l <= 63,
                ll == l as usize,
                k <= ll,
                name@ == (if pre_name.len() == 0 {
                    Seq::<u8>::empty()
                } else {
                    pre_name + seq![DOT]
                }) + buf@.subrange(pos as int + 1, pos as int + 1 + k as int),
            decreases ll - k,
        {
            name.push(buf[pos + 1 + k]);
            k += 1;
            proof {
                assert(name@ =~= (if pre_name.len() == 0 {
                    Seq::<u8>::empty()
                } else {
                    pre_name + seq![DOT]
                }) + buf@.subrange(pos as int + 1, pos as int + 1 + k as int));
            }
        }
        let ghost label = buf@.subrange(pos as int + 1, pos as int + 1 + ll as int);
        let ghost oldpos = pos as int;
        pos = pos + 1 + ll;
        proof {
            // one decoding step: the spec name at the old position is the
            // label joined onto the spec name at the new position
            if decode_labels(buf@, pos as int) is Some {
                let (rest, np) = decode_labels(buf@, pos as int).unwrap();
                if rest.len() == 0 {
                    assert(decode_labels(buf@, oldpos) == Some((label, np)));
                    assert(join_names(pre_name, label) =~= name@);
                    assert(join_names(name@, rest) == name@);
                    assert(join_names(pre_name, join_names(label, rest)) =~= join_names(
                        name@,
                        rest,
                    ));
                } else {
                    assert(decode_labels(buf@, oldpos) == Some((label + seq![DOT] + rest, np)));
                    assert(join_names(pre_name, label + seq![DOT] + rest) =~= join_names(
                        name@,
                        rest,
                    ));
                }
            }
        }
    }
    let np = pos + 1;
    if n - np < 4 {
        return Err(ParseError);
    }
    let qtype = read_be16(buf[np], buf[np + 1]);
    let qclass = read_be16(buf[np + 2], buf[np + 3]);
    let m = DnsMessage { header, question: Some(Question { qname: name, qtype, qclass }) };
    proof {
        assert(Some(message_view(m)) == spec_parse(buf@));
    }
    Ok(m)
}

/// Serialize a message to wire bytes. What this writes, the parser reads
/// back unchanged.
#[verifier::rlimit(60)]
pub fn serialize_message(m: &DnsMessage) -> (r: Vec<u8>)
    requires
        view_wf(message_view(*m)),
    ensures
        r@ == spec_serialize(message_view(*m)),
        spec_parse(r@) == Some(message_view(*m)),
{
    let ghost v = message_view(*m);
    let h = &m.header;
    let mut out: Vec<u8> = Vec::new();
    out.push(be16_hi(h.id));
    out.push(be16_lo(h.id));
    let hi: u8 = (if h.qr {
        128
    } else {
        0
    }) + h.opcode * 8 + (if h.aa {
        4
    } else {
        0
    }) + (if h.tc {
        2
    } else {
        0
    }) + (if h.rd {
        1
    } else {
        0
    });
    let lo: u8 = (if h.ra {
        128
    } else {
        0
    }) + h.z * 16 + h.rcode;
    out.push(hi);
    out.push(lo);
    out.push(be16_hi(h.qdcount));
    out.push(be16_lo(h.qdcount));
    out.push(be16_hi(h.ancount));
    out.push(be16_lo(h.ancount));
    out.push(be16_hi(h.nscount));
    out.push(be16_lo(h.nscount));
    out.push(be16_hi(h.arcount));
    out.push(be16_lo(h.arcount));
    proof {
        assert(out@ =~= spec_header_bytes(m.header));
    }
    match &m.question {
        None => {
            proof {
                lemma_parse_serialize(v);
            }
            out
        },
        Some(q) => {
            let qn = &q.qname;
            let n = qn.len();
            let ghost hdr = spec_header_bytes(m.header);
            if n == 0 {
                out.push(0);
                proof {
                    assert(out@ =~= hdr + encode_name(qn@));
                }
            } else {
                proof {
                    assert(labels_ok(qn@));
                    assert(qn@.skip(0) =~= qn@);
                    assert(out@ + encode_name(qn@.skip(0)) =~= hdr + encode_name(qn@));
                }
                let mut i: usize = 0;
                while i < n
                    invariant_except_break
                        n == qn@.len(),
                        1 <= n,
                        i < n,
                        labels_ok(qn@.skip(i as int)),
                        out@ + encode_name(qn@.skip(i as int)) == hdr + encode_name(qn@),
                    ensures
                        out@ == hdr + encode_name(qn@),
                    decreases n - i,
                {
                    let ghost rem = qn@.skip(i as int);
                    proof {
                        lemma_first_dot_char(rem);
                    }
                    // find the end of the label
                    let mut j: usize = i;
                    while j < n && qn[j] != DOT
                        invariant
                            n == qn@.len(),
                            i <= j <= n,
                            forall|t: int| i <= t < j ==> qn@[t] != DOT,
                        decreases n - j,
                    {
                        j += 1;
                    }
                    let ghost d = first_dot(rem);
                    proof {
                        // the scanned label end matches the spec's first dot
                        assert forall|t: int| 0 <= t < j - i implies rem[t] != DOT by {
                            assert(qn@[i + t] != DOT);
                        }
                        if d < j - i {
                            assert(rem[d] == DOT);
                        }
                        if d > j - i {
                            assert(j < n);
                            assert(rem[j - i] == qn@[j as int]);
                            assert(rem[j - i] == DOT);
                        }
                        assert(d == j - i);
                        assert(1 <= d <= 63);
                    }
                    out.push((j - i) as u8);
                    let mut k: usize = i;
                    let ghost mid = out@;
                    while k < j
                        invariant
                            n == qn@.len(),
                            i <= k <= j <= n,
                            out@ == mid + qn@.subrange(i as int, k as int),
                        decreases j - k,
                    {
                        out.push(qn[k]);
                        k += 1;
                        proof {
                            assert(out@ =~= mid + qn@.subrange(i as int, k as int));
                        }
                    }
                    proof {
                        assert(qn@.subrange(i as int, j as int) =~= rem.take(d));
                    }
                    if j == n {
                        out.push(0);
                        proof {
                            assert(encode_name(rem) =~= seq![d as u8] + rem.take(d) + seq![0u8]);
                            assert(out@ =~= hdr + encode_name(qn@));
                        }
                        break ;
                    }
                    proof {
                        assert(d < rem.len());
                        assert(encode_name(rem) =~= seq![d as u8] + rem.take(d) + encode_name(
                            rem.skip(d + 1),
                        ));
                        assert(rem.skip(d + 1) =~= qn@.skip(j as int + 1));
                        assert(out@ + encode_name(qn@.skip(j as int + 1)) =~= hdr + encode_name(
                            qn@,
                        ));
                        assert(labels_ok(qn@.skip(j as int + 1)));
                        assert(j + 1 < n);
                    }
                    i = j + 1;
                }
            }
            out.push(be16_hi(q.qtype));
            out.push(be16_lo(q.qtype));
            out.push(be16_hi(q.qclass));
            out.push(be16_lo(q.qclass));
            proof {
                assert(out@ =~= spec_serialize(v));
                lemma_parse_serialize(v);
            }
            out
        },
    }
}

/// Step over one wire-format name: labels, a terminator, or a
/// compression pointer. The position just past the name, or nothing when
/// the bytes are malformed.
pub open spec fn skip_name(b: Seq<u8>, pos: int) -> Option<int>
    decreases b.len() - pos,
{
    if pos < 0 || pos >= b.len() {
        None
    } else if b[pos] == 0 {
        Some(pos + 1)
    } else if b[pos] >= 192 {
        if pos + 2 <= b.len() {
            Some(pos + 2)
        } else {
            None
        }
    } else if b[pos] >= 64 {
        None
    } else {
        let l = b[pos] as int;
        if pos + 1 + l > b.len() {
            None
        } else {
            skip_name(b, pos + 1 + l)
        }
    }
}

/// Step over `n` questions from `pos`.
pub open spec fn skip_questions(b: Seq<u8>, pos: int, n: nat) -> Option<int>
    decreases n,
{
    if n == 0 {
        Some(pos)
    } else {
        match skip_name(b, pos) {
            None => None,
            Some(p) => {
                if p + 4 <= b.len() {
                    skip_questions(b, p + 4, (n - 1) as nat)
                } else {
                    None
                }
            },
        }
    }
}

/// Big-endian 32-bit read.
pub open spec fn be32(b: Seq<u8>, p: int) -> int {
    b[p] * 0x1000000 + b[p + 1] * 0x10000 + b[p + 2] * 256 + b[p + 3]
}

/// Scan `n` resource records from `pos`: the least time-to-live among
/// them (starting from the sentinel one past the 32-bit range) and the
/// position past the last record.
pub open spec fn scan_records(b: Seq<u8>, pos: int, n: nat) -> Option<(int, int)>
    decreases n,
{
    if n == 0 {
        Some((0x1_0000_0000, pos))
    } else {
        match skip_name(b, pos) {
            None => None,
            Some(p) => {
                if p + 10 <= b.len() {
                    let ttl = be32(b, p + 4);
                    let rdlen = b[p + 8] * 256 + b[p + 9];
                    if p + 10 + rdlen <= b.len() {
                        match scan_records(b, p + 10 + rdlen, (n - 1) as nat) {
                            None => None,
                            Some((m, e)) => Some(
                                (
                                    if ttl < m {
                                        ttl
                                    } else {
                                        m
                                    },
                                    e,
                                ),
                            ),
                        }
                    } else {
                        None
                    }
                } else {
                    None
                }
            },
        }
    }
}

/// The least time-to-live across the answer records of a reply, if the
/// reply is well-formed and has any answer.
pub open spec fn spec_min_answer_ttl(b: Seq<u8>) -> Option<int> {
    if b.len() < 12 {
        None
    } else {
        let h = spec_parse_header(b);
        if h.ancount == 0 {
            None
        } else {
            match skip_questions(b, 12, h.qdcount as nat) {
                None => None,
                Some(p) => match scan_records(b, p, h.ancount as nat) {
                    None => None,
                    Some((m, _)) => Some(m),
                },
            }
        }
    }
}

/// Scanning at least one record brings the minimum under the sentinel.
proof fn lemma_scan_min_in_range(b: Seq<u8>, pos: int, n: nat)
    requires
        scan_records(b, pos, n) is Some,
    ensures
        scan_records(b, pos, n).unwrap().0 <= 0x1_0000_0000,
        n >= 1 ==> scan_records(b, pos, n).unwrap().0 < 0x1_0000_0000,
        0 <= scan_records(b, pos, n).unwrap().0,
    decreases n,
{
    if n > 0 {
        let p = skip_name(b, pos).unwrap();
        let rdlen = b[p + 8] * 256 + b[p + 9];
        lemma_scan_min_in_range(b, p + 10 + rdlen, (n - 1) as nat);
    }
}

/// Step over one wire-format name.
fn skip_name_exec(b: &Vec<u8>, pos: usize) -> (r: Option<usize>)
    ensures
        r matches Some(p) ==> skip_name(b@, pos as int) == Some(p as int) && pos < p <= b@.len(),
        r is None ==> skip_name(b@, pos as int) is None,
{
    let n = b.len();
    let mut cur = pos;
    loop
        invariant
            n == b@.len(),
            pos <= cur,
            skip_name(b@, pos as int) == skip_name(b@, cur as int),
        decreases n - cur,
    {
        if cur >= n {
            return None;
        }
        let l = b[cur];
        if l == 0 {
            return Some(cur + 1);
        }
        if l >= 192 {
            if n - cur >= 2 {
                return Some(cur + 2);
            }
            return None;
        }
        if l >= 64 {
            return None;
        }
        if n - (cur + 1) < l as usize {
            return None;
        }
        cur = cur + 1 + (l as usize);
    }
}

/// The least time-to-live across the answer records of a reply: what the
/// cache clamps into its band. Nothing for a reply without answers or
/// with malformed sections.
pub fn min_answer_ttl(b: &Vec<u8>) -> (r: Option<u32>)
    ensures
        r matches Some(t) ==> spec_min_answer_ttl(b@) == Some(t as int),
        r is None ==> spec_min_answer_ttl(b@) is None,
{
    let n = b.len();
    if n < 12 {
        return None;
    }
    let qdcount = read_be16(b[4], b[5]);
    let ancount = read_be16(b[6], b[7]);
    proof {
        assert(qdcount == spec_parse_header(b@).qdcount);
        assert(ancount == spec_parse_header(b@).ancount);
    }
    if ancount == 0 {
        return None;
    }
    // step over the questions
    let mut pos: usize = 12;
    let mut q: u16 = qdcount;
    while q > 0
        invariant
            n == b@.len(),
            n >= 12,
            pos <= n,
            qdcount == spec_parse_header(b@).qdcount,
            ancount == spec_parse_header(b@).ancount,
            ancount != 0,
            skip_questions(b@, 12, qdcount as nat) == skip_questions(b@, pos as int, q as nat),
        decreases q,
    {
        match skip_name_exec(b, pos) {
            None => {
                return None;
            },
            Some(p) => {
                if n - p < 4 {
                    return None;
                }
                pos = p + 4;
            },
        }
        q = q - 1;
    }
    // scan the answers for the least time-to-live
    let ghost apos = pos as int;
    let mut best: u64 = 0x1_0000_0000;
    let mut a: u16 = ancount;
    while a > 0
        invariant
            n == b@.len(),
            n >= 12,
            pos <= n,
            qdcount == spec_parse_header(b@).qdcount,
            ancount == spec_parse_header(b@).ancount,
            ancount != 0,
            skip_questions(b@, 12, qdcount as nat) == Some(apos),
            best <= 0x1_0000_0000,
            scan_records(b@, apos, ancount as nat) is Some <==> scan_records(
                b@,
                pos as int,
                a as nat,
            ) is Some,
            scan_records(b@, pos as int, a as nat) matches Some((m, e)) ==> scan_records(
                b@,
                apos,
                ancount as nat,
            ) == Some(
                (
                    if m < best {
                        m
                    } else {
                        best as int
                    },
                    e,
                ),
            ),
        decreases a,
    {
        match skip_name_exec(b, pos) {
            None => {
                return None;
            },
            Some(p) => {
                if n - p < 10 {
                    return None;
                }
                let ttl: u64 = (b[p + 4] as u64) * 0x1000000 + (b[p + 5] as u64) * 0x10000 + (b[p
                    + 6] as u64) * 256 + (b[p + 7] as u64);
                let rdlen: usize = (b[p + 8] as usize) * 256 + (b[p + 9] as usize);
                if n - (p + 10) < rdlen {
                    return None;
                }
                proof {
                    assert(ttl == be32(b@, p as int + 4));
                }
                if ttl < best {
                    best = ttl;
                }
                pos = p + 10 + rdlen;
            },
        }
        a = a - 1;
    }
    proof {
        assert(scan_records(b@, pos as int, 0) == Some((0x1_0000_0000int, pos as int)));
        lemma_scan_min_in_range(b@, apos, ancount as nat);
        assert(best < 0x1_0000_0000);
    }
    Some(best as u32)
}

} // verus!
