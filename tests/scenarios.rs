use dnslib::enums::{OpCode, PacketType, QClass, QType, ResponseCode};
use dnslib::error::{DNSError, EnumKind, InternalError};
use dnslib::header::{DNSPacketFlags, DNSPacketHeader};
use dnslib::message::{DNSMessage, DNSPacket, DNSQuery, DNSRequest, DNSResponse};
use dnslib::name::{CharacterString, DomainName, LabelType};
use dnslib::network_order::{FromNetworkOrder, ToNetworkOrder};
use dnslib::question::DNSQuestion;
use dnslib::record::{DNSResourceRecord, OptTTL, OPT};
use dnslib::rdata::{OptData, RData, HINFO, MX, SOA};
use dnslib::util::{get_sample_slice, is_pointer, to_domain};

fn label(s: &str) -> LabelType {
    LabelType::Label(CharacterString::from(s))
}

fn name(s: &str) -> DomainName {
    DomainName::try_from(s).unwrap()
}

fn all_flags() -> DNSPacketFlags {
    DNSPacketFlags {
        packet_type: PacketType::Response,
        op_code: OpCode::IQuery,
        authorative_answer: true,
        truncated: true,
        recursion_desired: true,
        recursion_available: true,
        z: true,
        authentic_data: true,
        checking_disabled: true,
        response_code: ResponseCode::NoError,
    }
}

const WWW_GOOGLE_IE: [u8; 15] = [
    0x03, 0x77, 0x77, 0x77, 0x06, 0x67, 0x6f, 0x6f, 0x67, 0x6c, 0x65, 0x02, 0x69, 0x65, 0x00,
];

#[test]
fn primitive_round_trip() {
    let mut buffer: Vec<u8> = Vec::new();
    assert_eq!(0x1234_u16.to_network_bytes(&mut buffer), 2);
    assert_eq!(buffer, &[0x12, 0x34]);
    let mut v = 0u16;
    assert_eq!(v.from_network_bytes(&buffer, 0).unwrap(), 2);
    assert_eq!(v, 0x1234);

    let mut buffer: Vec<u8> = Vec::new();
    assert_eq!(255_u8.to_network_bytes(&mut buffer), 1);
    assert_eq!(0x12345678_u32.to_network_bytes(&mut buffer), 4);
    assert_eq!((-2_i32).to_network_bytes(&mut buffer), 4);
    assert_eq!(buffer, &[0xFF, 0x12, 0x34, 0x56, 0x78, 0xFF, 0xFF, 0xFF, 0xFE]);
    let mut a = 0u8;
    let mut b = 0u32;
    let mut c = 0i32;
    assert_eq!(a.from_network_bytes(&buffer, 0).unwrap(), 1);
    assert_eq!(b.from_network_bytes(&buffer, 1).unwrap(), 5);
    assert_eq!(c.from_network_bytes(&buffer, 5).unwrap(), 9);
    assert_eq!((a, b, c), (255, 0x12345678, -2));
}

#[test]
fn primitive_short_read() {
    let mut v = 0u32;
    assert!(matches!(v.from_network_bytes(&[1, 2, 3], 0), Err(DNSError::ShortRead)));
    let mut w = 0u16;
    assert!(matches!(w.from_network_bytes(&[1, 2, 3], 2), Err(DNSError::ShortRead)));
    assert!(matches!(w.from_network_bytes(&[1, 2, 3], 7), Err(DNSError::ShortRead)));
}

#[test]
fn flags_round_trip() {
    let flags = all_flags();
    let mut buffer: Vec<u8> = Vec::new();
    assert_eq!(flags.to_network_bytes(&mut buffer), 2);
    assert_eq!(buffer, &[0x8F, 0xF0]);
    let mut decoded = DNSPacketFlags::default();
    assert_eq!(decoded.from_network_bytes(&buffer, 0).unwrap(), 2);
    assert_eq!(decoded, flags);
}

#[test]
fn flags_reserved_z_alone() {
    let mut flags = DNSPacketFlags::default();
    flags.z = true;
    let mut buffer: Vec<u8> = Vec::new();
    flags.to_network_bytes(&mut buffer);
    assert_eq!(buffer, &[0x00, 0x40]);
    let mut decoded = DNSPacketFlags::default();
    decoded.from_network_bytes(&buffer, 0).unwrap();
    assert!(decoded.z);
    assert_eq!(decoded, flags);
}

#[test]
fn flags_unknown_codes() {
    let mut f = DNSPacketFlags::default();
    // opcode 7 is not declared
    assert!(matches!(
        f.from_network_bytes(&[0x38, 0x00], 0),
        Err(DNSError::UnknownEnumValue { kind: EnumKind::OpCode, value: 7 })
    ));
    // rcode 12 is not declared
    assert!(matches!(
        f.from_network_bytes(&[0x00, 0x0C], 0),
        Err(DNSError::UnknownEnumValue { kind: EnumKind::ResponseCode, value: 12 })
    ));
}

#[test]
fn header_round_trip() {
    let header = DNSPacketHeader {
        id: 0x1234,
        flags: all_flags(),
        qd_count: 0x1234,
        an_count: 0x1234,
        ns_count: 0x1234,
        ar_count: 0x1234,
    };
    let expected = [0x12, 0x34, 0x8F, 0xF0, 0x12, 0x34, 0x12, 0x34, 0x12, 0x34, 0x12, 0x34];
    let mut buffer: Vec<u8> = Vec::new();
    assert_eq!(header.to_network_bytes(&mut buffer), 12);
    assert_eq!(buffer, &expected);
    let mut decoded = DNSPacketHeader::default();
    assert_eq!(decoded.from_network_bytes(&expected, 0).unwrap(), 12);
    assert_eq!(decoded, header);
}

#[test]
fn enum_codes_round_trip() {
    for v in 0u16..=u16::MAX {
        match QType::try_from(v) {
            Ok(t) => {
                assert_eq!(t.value(), v);
                let mut buffer: Vec<u8> = Vec::new();
                t.to_network_bytes(&mut buffer);
                let mut back = QType::default();
                back.from_network_bytes(&buffer, 0).unwrap();
                assert_eq!(back, t);
            }
            Err(e) => assert!(matches!(e, DNSError::UnknownEnumValue { kind: EnumKind::QType, value } if value == v)),
        }
    }
    assert_eq!(QType::try_from(1).unwrap(), QType::A);
    assert_eq!(QType::try_from(41).unwrap(), QType::OPT);
    assert_eq!(QType::try_from(28).unwrap(), QType::AAAA);
    assert_eq!(QType::try_from(65).unwrap(), QType::HTTPS);
    assert_eq!(QType::try_from(255).unwrap(), QType::ANY);
    assert_eq!(QType::try_from(32769).unwrap(), QType::DLV);
    assert!(QType::try_from(66).is_err());
    assert_eq!(QClass::try_from(1).unwrap(), QClass::IN);
    assert!(matches!(QClass::try_from(6), Err(DNSError::UnknownEnumValue { kind: EnumKind::QClass, value: 6 })));
    assert_eq!(ResponseCode::try_from(16).unwrap(), ResponseCode::BADVERS);
    assert!(ResponseCode::try_from(12).is_err());
    assert_eq!(OpCode::try_from(6).unwrap(), OpCode::DOS);
    assert!(OpCode::try_from(7).is_err());
    assert_eq!(PacketType::try_from(1).unwrap(), PacketType::Response);
    assert!(PacketType::try_from(2).is_err());
    assert_eq!(QType::default(), QType::A);
    assert_eq!(QClass::default(), QClass::IN);
    let mut c = QClass::default();
    assert!(matches!(c.from_network_bytes(&[0x00, 0x07], 0), Err(DNSError::UnknownEnumValue { kind: EnumKind::QClass, value: 7 })));
}

#[test]
fn name_encode() {
    let dn = name("www.google.ie");
    let mut buffer: Vec<u8> = Vec::new();
    assert_eq!(dn.to_network_bytes(&mut buffer), 15);
    assert_eq!(buffer, &WWW_GOOGLE_IE);

    let mut back = DomainName::default();
    assert_eq!(back.from_network_bytes(&buffer, 0).unwrap(), 15);
    assert_eq!(back.labels, &[label("www"), label("google"), label("ie"), LabelType::Root]);
    assert_eq!(back, dn);
}

#[test]
fn name_from_text() {
    let dn = name("www.example.com");
    assert_eq!(dn.labels, &[label("www"), label("example"), label("com"), LabelType::Root]);
    let dn = name("com.");
    assert_eq!(dn.labels, &[label("com"), LabelType::Root]);
    let dn = name(".");
    assert_eq!(dn.labels, &[LabelType::Root]);
    assert!(LabelType::Root.is_root());
    assert!(!label("a").is_root());
    assert!(matches!(
        DomainName::try_from(""),
        Err(DNSError::DNSInternalError(InternalError::EmptyDomainName))
    ));
    let long_label = "a".repeat(64);
    assert!(matches!(DomainName::try_from(long_label.as_str()), Err(DNSError::MalformedName)));
    let label63 = "a".repeat(63);
    assert!(DomainName::try_from(label63.as_str()).is_ok());
    // four labels of 63 octets: 4 * 64 + 1 = 257 octets
    let too_long = format!("{0}.{0}.{0}.{0}", label63);
    assert!(matches!(
        DomainName::try_from(too_long.as_str()),
        Err(DNSError::DNSInternalError(InternalError::DnsDomainNameTooLong))
    ));
    // 3 * 64 + 62 + 1 = 255 octets: the longest name
    let longest = format!("{0}.{0}.{0}.{1}", label63, "a".repeat(61));
    let dn = DomainName::try_from(longest.as_str()).unwrap();
    let mut buffer: Vec<u8> = Vec::new();
    assert_eq!(dn.to_network_bytes(&mut buffer), 255);
}

#[test]
fn name_to_text() {
    assert_eq!(name("www.google.com").to_text().unwrap(), "www.google.com.");
    assert_eq!(name("www.google.ie.").to_text().unwrap(), "www.google.ie.");
    assert_eq!(name(".").to_text().unwrap(), ".");
    let bad = DomainName { labels: vec![LabelType::Label(CharacterString { data: vec![0xff, 0xfe] }), LabelType::Root] };
    assert!(matches!(bad.to_text(), Err(DNSError::NonUtf8Text)));
}

fn google_message() -> Vec<u8> {
    // header, then at offset 12: 6 google 3 com 0
    let mut m = vec![0x12, 0x34, 0x81, 0x80, 0, 1, 0, 0, 0, 0, 0, 0];
    m.extend_from_slice(&[6, b'g', b'o', b'o', b'g', b'l', b'e', 3, b'c', b'o', b'm', 0]);
    // offset 24: padding up to offset 40
    m.extend_from_slice(&[0xAA; 16]);
    // offset 40: 3 ns1 then a pointer to 12
    m.extend_from_slice(&[3, b'n', b's', b'1', 0xC0, 0x0C]);
    // offset 46: a pointer to 12 alone
    m.extend_from_slice(&[0xC0, 0x0C]);
    m
}

#[test]
fn name_pointer_decode() {
    let m = google_message();
    let mut dn = DomainName::default();
    assert_eq!(dn.from_position(46, &m).unwrap(), 48);
    assert_eq!(dn.labels, &[label("google"), label("com"), LabelType::Root]);
}

#[test]
fn chained_pointer() {
    let m = google_message();
    let mut dn = DomainName::default();
    assert_eq!(dn.from_position(40, &m).unwrap(), 46);
    assert_eq!(dn.labels, &[label("ns1"), label("google"), label("com"), LabelType::Root]);
}

#[test]
fn malicious_pointer() {
    // a pointer at offset 12 pointing to offset 12
    let mut m = vec![0u8; 12];
    m.extend_from_slice(&[0xC0, 0x0C]);
    let mut dn = DomainName::default();
    assert!(matches!(dn.from_position(12, &m), Err(DNSError::MalformedName)));
    assert!(dn.labels.is_empty());
    // a pointer to a later offset
    let mut m = vec![0u8; 12];
    m.extend_from_slice(&[1, b'a', 0xC0, 0x20]);
    let mut dn = DomainName::default();
    assert!(matches!(dn.from_position(12, &m), Err(DNSError::MalformedName)));
}

#[test]
fn pointer_loop_rejected() {
    // offset 12: 1 'a' then a pointer back to 12; following it would loop
    let mut m = vec![0u8; 12];
    m.extend_from_slice(&[1, b'a', 0xC0, 0x0C]);
    let mut dn = DomainName::default();
    assert!(matches!(dn.from_position(14, &m), Err(DNSError::MalformedName)));
}

#[test]
fn reserved_label_bits() {
    let mut dn = DomainName::default();
    assert!(matches!(dn.from_position(0, &[0x40, 0x00]), Err(DNSError::MalformedName)));
    let mut dn = DomainName::default();
    assert!(matches!(dn.from_position(0, &[0x80, 0x00]), Err(DNSError::MalformedName)));
    let mut dn = DomainName::default();
    assert!(matches!(dn.from_position(0, &[0x03, b'a', b'b']), Err(DNSError::ShortRead)));
    let mut dn = DomainName::default();
    assert!(matches!(dn.from_position(0, &[0xC0]), Err(DNSError::ShortRead)));
}

#[test]
fn question_encode() {
    let q = DNSQuestion::new("www.google.ie", QType::A, None).unwrap();
    assert_eq!(q.class, QClass::IN);
    let mut buffer: Vec<u8> = Vec::new();
    assert_eq!(q.to_network_bytes(&mut buffer), 19);
    let mut expected = WWW_GOOGLE_IE.to_vec();
    expected.extend_from_slice(&[0x00, 0x01, 0x00, 0x01]);
    assert_eq!(buffer, expected);
    let mut back = DNSQuestion::new(".", QType::NS, Some(QClass::CH)).unwrap();
    assert_eq!(back.class, QClass::CH);
    assert_eq!(back.from_network_bytes(&buffer, 0).unwrap(), 19);
    assert_eq!(back, q);
    assert!(DNSQuestion::new("", QType::A, None).is_err());
}

#[test]
fn full_packet_encode() {
    let header = DNSPacketHeader {
        id: 0x1234,
        flags: all_flags(),
        qd_count: 0x1234,
        an_count: 0x1234,
        ns_count: 0x1234,
        ar_count: 0x1234,
    };
    let question = DNSQuestion::new("www.google.ie", QType::A, Some(QClass::IN)).unwrap();
    let packet = DNSPacket { header, data: question };
    let mut buffer: Vec<u8> = Vec::new();
    assert_eq!(packet.to_network_bytes(&mut buffer), 31);
    let mut expected = vec![0x12, 0x34, 0x8F, 0xF0, 0x12, 0x34, 0x12, 0x34, 0x12, 0x34, 0x12, 0x34];
    expected.extend_from_slice(&WWW_GOOGLE_IE);
    expected.extend_from_slice(&[0x00, 0x01, 0x00, 0x01]);
    assert_eq!(buffer, expected);

    let mut back = DNSPacket {
        header: DNSPacketHeader::default(),
        data: DNSQuestion::new(".", QType::NS, None).unwrap(),
    };
    assert_eq!(back.from_network_bytes(&buffer, 0).unwrap(), 31);
    assert_eq!(back, packet);
    assert!(matches!(back.from_network_bytes(&buffer[..30], 0), Err(DNSError::ShortRead)));
}

fn response_with_rcode(rcode: u8) -> Vec<u8> {
    let mut m = vec![0xAB, 0xCD, 0x81, 0x80 | rcode, 0, 1, 0, 0, 0, 0, 0, 0];
    m.extend_from_slice(&WWW_GOOGLE_IE);
    m.extend_from_slice(&[0x00, 0x01, 0x00, 0x01]);
    m
}

#[test]
fn unknown_rcode() {
    let m = response_with_rcode(3);
    let resp = DNSResponse::from_network_bytes(&m).unwrap();
    assert_eq!(resp.message.header.flags.response_code, ResponseCode::NXDomain);
    assert_eq!(resp.message.questions.len(), 1);
    assert!(matches!(resp.check_rcode(), Err(DNSError::ResponseRcode { code: 3 })));

    let ok = DNSResponse::from_network_bytes(&response_with_rcode(0)).unwrap();
    assert!(ok.check_rcode().is_ok());
}

#[test]
fn truncated_response() {
    let m = response_with_rcode(0);
    for len in 0..m.len() {
        assert!(matches!(DNSResponse::from_network_bytes(&m[..len]), Err(DNSError::ShortRead)));
    }
}

fn record(n: &str, r_type: u16, rd_data: RData) -> DNSResourceRecord {
    DNSResourceRecord { name: name(n), r_type, class: 1, ttl: 0x5460, rd_data }
}

fn round_trip(r: &DNSResourceRecord) -> Vec<u8> {
    let mut buffer: Vec<u8> = vec![0xEE; 3];
    let n = r.to_network_bytes(&mut buffer);
    assert_eq!(n + 3, buffer.len());
    let mut back = record(".", 0, RData::Unknown(vec![]));
    assert_eq!(back.from_network_bytes(&buffer, 3).unwrap(), buffer.len());
    assert_eq!(&back, r);
    buffer
}

#[test]
fn rdata_round_trip() {
    let a = record("a.example", 1, RData::A(0xC0A80001));
    let bytes = round_trip(&a);
    assert_eq!(&bytes[bytes.len() - 6..], &[0x00, 0x04, 0xC0, 0xA8, 0x00, 0x01]);
    round_trip(&record("example", 2, RData::NS(name("ns1.example"))));
    round_trip(&record("www.example", 5, RData::CNAME(name("example"))));
    round_trip(&record("1.0.0.127.in-addr.arpa", 12, RData::PTR(name("localhost"))));
    round_trip(&record(
        "example",
        6,
        RData::SOA(SOA {
            mname: name("ns.example"),
            rname: name("admin.example"),
            serial: 2024010101,
            refresh: 7200,
            retry: 3600,
            expire: 1209600,
            minimum: 300,
        }),
    ));
    round_trip(&record("host", 13, RData::HINFO(HINFO { cpu: CharacterString::from("x86"), os: CharacterString::from("linux") })));
    round_trip(&record("example", 15, RData::MX(MX { preference: 10, exchange: name("mail.example") })));
    let txt = round_trip(&record(
        "example",
        16,
        RData::TXT(vec![CharacterString::from("v=spf1"), CharacterString::from(""), CharacterString::from("-all")]),
    ));
    assert_eq!(&txt[txt.len() - 15..], &[0, 13, 6, b'v', b'=', b's', b'p', b'f', b'1', 0, 4, b'-', b'a', b'l', b'l']);
    let aaaa: Vec<u8> = (1..=16).collect();
    round_trip(&record("v6", 28, RData::AAAA(aaaa)));
    round_trip(&record(
        ".",
        41,
        RData::OPT(vec![OptData { option_code: 10, option_data: vec![1, 2, 3, 4, 5, 6, 7, 8] }]),
    ));
    // a type without a layout here keeps its octets
    round_trip(&record("srv", 33, RData::Unknown(vec![0, 1, 2, 3, 4])));
    let unknown = record("x", 0xFFF0, RData::Unknown(vec![9, 9]));
    round_trip(&unknown);
    assert!(unknown.qtype().is_err());
    assert_eq!(record("x", 16, RData::TXT(vec![])).qtype().unwrap(), QType::TXT);
}

#[test]
fn rdata_length_mismatch() {
    // an A record whose RDLENGTH is 5
    let buffer = [0u8, 0, 1, 0, 1, 0, 0, 0, 0, 0, 5, 1, 2, 3, 4, 5];
    let mut rr = record(".", 0, RData::Unknown(vec![]));
    assert!(matches!(rr.from_network_bytes(&buffer, 0), Err(DNSError::BadRdLength)));
    // an RDLENGTH past the end of the message
    let buffer = [0u8, 0, 1, 0, 1, 0, 0, 0, 0, 0, 9, 1, 2, 3, 4];
    assert!(matches!(rr.from_network_bytes(&buffer, 0), Err(DNSError::ShortRead)));
    // a TXT string running past RDLENGTH
    let buffer = [0u8, 0, 16, 0, 1, 0, 0, 0, 0, 0, 2, 5, b'a', b'b', b'c', b'd', b'e'];
    assert!(matches!(rr.from_network_bytes(&buffer, 0), Err(DNSError::BadRdLength)));
    // the data can be read from a slice of a message
    assert!(RData::from_network_bytes(&[0, 0, 0, 0], 1, 0, 4).is_ok());
}

#[test]
fn message_round_trip() {
    let mut m = DNSMessage::with_id(0x4242);
    m.push_question(DNSQuestion::new("example", QType::MX, None).unwrap());
    m.answers.push(record("example", 15, RData::MX(MX { preference: 5, exchange: name("mx.example") })));
    m.answers.push(record("mx.example", 1, RData::A(0x0A000001)));
    m.additionals.push(record(".", 41, RData::OPT(vec![])));
    m.header.an_count = 2;
    m.header.ar_count = 1;
    let mut buffer: Vec<u8> = Vec::new();
    let n = m.to_network_bytes(&mut buffer);
    assert_eq!(n, buffer.len());
    let resp = DNSResponse::from_network_bytes(&buffer).unwrap();
    assert_eq!(resp.message, m);
    let h = resp.message.header;
    assert_eq!(h.qd_count as usize, resp.message.questions.len());
    assert_eq!(h.an_count as usize, resp.message.answers.len());
    assert_eq!(h.ns_count as usize, resp.message.authorities.len());
    assert_eq!(h.ar_count as usize, resp.message.additionals.len());
}

#[test]
fn query_assembly() {
    let mut q = DNSQuery::default();
    assert_eq!(q.header.flags.packet_type, PacketType::Query);
    assert_eq!(q.header.flags.op_code, OpCode::Query);
    assert!(q.header.flags.recursion_desired);
    assert!(!q.header.flags.recursion_available);
    assert_eq!(q.header.flags.response_code, ResponseCode::NoError);
    assert_eq!(q.header.qd_count, 0);

    let mut q2 = DNSQuery::with_id(0x0102);
    q2.push_question(DNSQuestion::new("www.google.ie", QType::A, None).unwrap());
    assert_eq!(q2.header.qd_count, 1);
    q2.set_opt(OPT::default());
    q2.set_opt(OPT::default());
    assert_eq!(q2.header.ar_count, 1);
    let mut buffer: Vec<u8> = Vec::new();
    assert_eq!(q2.to_network_bytes(&mut buffer), 12 + 19 + 11);
    let mut expected = vec![0x01, 0x02, 0x01, 0x00, 0, 1, 0, 0, 0, 0, 0, 1];
    expected.extend_from_slice(&WWW_GOOGLE_IE);
    expected.extend_from_slice(&[0, 1, 0, 1]);
    expected.extend_from_slice(&[0, 0, 41, 0x10, 0x00, 0, 0, 0, 0, 0, 0]);
    assert_eq!(buffer, expected);

    // what the query wrote reads back as a message with its OPT record
    let resp = DNSResponse::from_network_bytes(&buffer).unwrap();
    assert_eq!(resp.message.additionals.len(), 1);
    assert_eq!(resp.message.additionals[0].class, 4096);
    assert_eq!(resp.message.additionals[0].rd_data, RData::OPT(vec![]));

    q.push_question(DNSQuestion::new("a", QType::AAAA, None).unwrap());
    assert_eq!(q.questions.len(), 1);
    let mut m = DNSMessage::default();
    assert!(m.header.flags.recursion_desired);
    m.push_question(DNSQuestion::new("a", QType::A, None).unwrap());
    assert_eq!(m.header.qd_count, 1);
}

#[test]
fn opt_ttl_do_flag() {
    let mut t = OptTTL::default();
    t.set_d0();
    assert_eq!(t.z, 0x8000);
    let mut t = OptTTL { extended_rcode: 1, version: 2, z: 0x0005 };
    t.set_d0();
    assert_eq!(t, OptTTL { extended_rcode: 1, version: 2, z: 0x8005 });
    let mut buffer: Vec<u8> = Vec::new();
    assert_eq!(t.to_network_bytes(&mut buffer), 4);
    assert_eq!(buffer, &[1, 2, 0x80, 0x05]);
}

#[test]
fn character_strings() {
    let cs = CharacterString::from("www");
    assert_eq!(cs.data, b"www");
    assert_eq!(cs.to_text().unwrap(), "www");
    let mut buffer: Vec<u8> = Vec::new();
    assert_eq!(cs.to_network_bytes(&mut buffer), 4);
    assert_eq!(buffer, &[3, b'w', b'w', b'w']);
    let mut back = CharacterString::default();
    assert_eq!(back.from_network_bytes(&buffer, 0).unwrap(), 4);
    assert_eq!(back, cs);
    // the codec keeps octets that are not UTF-8
    let mut raw = CharacterString::default();
    raw.from_network_bytes(&[2, 0xC3, 0x28], 0).unwrap();
    assert_eq!(raw.data, &[0xC3, 0x28]);
    assert!(matches!(raw.to_text(), Err(DNSError::NonUtf8Text)));
    assert!(matches!(back.from_network_bytes(&[5, 1, 2], 0), Err(DNSError::ShortRead)));
}

#[test]
fn utilities() {
    assert!(is_pointer(0b11000000));
    assert!(!is_pointer(0));
    assert!(!is_pointer(0b10000000));
    assert_eq!(to_domain("www.google.ie"), &WWW_GOOGLE_IE);
    assert_eq!(to_domain("a..b"), &[1, b'a', 0, 1, b'b', 0]);
    assert_eq!(get_sample_slice("0000   76 86 81 a0\n0010   0A ff"), &[0x76, 0x86, 0x81, 0xa0, 0x0a, 0xff]);
    assert!(matches!(DNSError::new("oops"), DNSError::DNS(m) if m == "oops"));
}

#[test]
fn request_init() {
    let mut packet = DNSPacket {
        header: DNSPacketHeader::default(),
        data: DNSQuestion::new(".", QType::A, None).unwrap(),
    };
    packet.header.flags.z = true;
    packet.header.an_count = 7;
    DNSRequest::init_request_with_id("www.google.ie", &mut packet, QType::AAAA, 0xBEEF).unwrap();
    assert_eq!(packet.header.id, 0xBEEF);
    assert!(packet.header.flags.recursion_desired);
    assert!(packet.header.flags.z);
    assert_eq!((packet.header.qd_count, packet.header.an_count), (1, 0));
    assert_eq!(packet.data.qtype, QType::AAAA);
    assert_eq!(packet.data.class, QClass::IN);
    let mut buffer: Vec<u8> = Vec::new();
    assert_eq!(packet.to_network_bytes(&mut buffer), 31);
    assert_eq!(&buffer[..4], &[0xBE, 0xEF, 0x01, 0x40]);

    let before = packet.clone();
    assert!(DNSRequest::init_request("", &mut packet, QType::A).is_err());
    assert_eq!(packet, before);
    DNSRequest::init_request("example", &mut packet, QType::MX).unwrap();
    assert_eq!(packet.data.name, name("example"));
}

#[test]
fn enum_names() {
    assert_eq!(QType::from_name("AAAA").unwrap(), QType::AAAA);
    assert_eq!(QType::from_name("MX").unwrap(), QType::MX);
    assert_eq!(QType::from_name("NSEC3PARAM").unwrap(), QType::NSEC3PARAM);
    assert!(matches!(QType::from_name("aaaa"), Err(DNSError::UnknownEnumName { kind: EnumKind::QType })));
    assert!(QType::from_name("").is_err());
    assert_eq!(QClass::from_name("CH").unwrap(), QClass::CH);
    assert_eq!(OpCode::from_name("Notify").unwrap(), OpCode::Notify);
    assert_eq!(ResponseCode::from_name("NXDomain").unwrap(), ResponseCode::NXDomain);
    assert_eq!(PacketType::from_name("Response").unwrap(), PacketType::Response);
    for v in 0u16..=u16::MAX {
        if let Ok(t) = QType::try_from(v) {
            let text = format!("{:?}", t);
            assert_eq!(QType::from_name(&text).unwrap(), t);
        }
    }
}

#[test]
fn opt_ttl_from_record() {
    let t = OptTTL::from_ttl(0x0102_8005);
    assert_eq!(t, OptTTL { extended_rcode: 1, version: 2, z: 0x8005 });
    assert!(t.d0());
    assert!(!OptTTL::from_ttl(0x0000_7FFF).d0());
    let mut opt = OPT::default();
    opt.ttl.set_d0();
    let mut q = DNSQuery::with_id(7);
    q.set_opt(opt);
    let mut buffer: Vec<u8> = Vec::new();
    q.to_network_bytes(&mut buffer);
    let resp = DNSResponse::from_network_bytes(&buffer).unwrap();
    let rr = &resp.message.additionals[0];
    assert_eq!(rr.r_type, 41);
    assert_eq!(rr.name.labels, &[LabelType::Root]);
    assert!(OptTTL::from_ttl(rr.ttl).d0());
}

#[test]
fn pointer_into_earlier_name() {
    // offset 0: label [0x00], then a pointer at 2 to offset 1 (the root);
    // offset 4: a pointer to offset 0
    let m = [0x01, 0x00, 0xC0, 0x01, 0xC0, 0x00];
    let zero = LabelType::Label(CharacterString { data: vec![0x00] });
    let mut dn = DomainName::default();
    assert_eq!(dn.from_position(0, &m).unwrap(), 4);
    assert_eq!(dn.labels, &[zero.clone(), LabelType::Root]);
    let mut dn = DomainName::default();
    assert_eq!(dn.from_position(4, &m).unwrap(), 6);
    assert_eq!(dn.labels, &[zero, LabelType::Root]);
}

#[test]
fn pointer_loop_at_start() {
    // 1 'a' then a pointer back to offset 0: following it never ends
    let m = [0x01, b'a', 0xC0, 0x00];
    let mut dn = DomainName::default();
    assert!(matches!(dn.from_position(0, &m), Err(DNSError::MalformedName)));
    assert!(dn.labels.is_empty());
}

#[test]
fn txt_needs_a_string() {
    // a TXT record whose RDLENGTH is 0
    let buffer = [0u8, 0, 16, 0, 1, 0, 0, 0, 0, 0, 0];
    let mut rr = record(".", 0, RData::Unknown(vec![]));
    assert!(matches!(rr.from_network_bytes(&buffer, 0), Err(DNSError::BadRdLength)));
}

#[test]
fn fixed_size_arrays() {
    let a: [u8; 4] = [0x12, 0x34, 0x56, 0x78];
    let mut buffer: Vec<u8> = vec![0xAA];
    assert_eq!(a.to_network_bytes(&mut buffer), 4);
    assert_eq!(buffer, &[0xAA, 0x12, 0x34, 0x56, 0x78]);
    let mut b = [0u8; 4];
    assert_eq!(b.from_network_bytes(&buffer, 1).unwrap(), 5);
    assert_eq!(b, a);
    assert!(matches!(b.from_network_bytes(&buffer, 2), Err(DNSError::ShortRead)));
}
