use dnslib::enums::{OpCode, PacketType, QClass, QType, ResponseCode};
use dnslib::header::{DNSPacketFlags, DNSPacketHeader};
use dnslib::message::DNSPacket;
use dnslib::name::{CharacterString, DomainName, LabelType};
use dnslib::network_order::{FromNetworkOrder, ToNetworkOrder};
use dnslib::question::DNSQuestion;
use dnslib::util::get_sample_slice;

#[test]
fn dnspacket_to_network() {
    // flags
    let flags = DNSPacketFlags {
        packet_type: PacketType::Response,
        op_code: OpCode::IQuery,
        authorative_answer: true,
        truncated: true,
        recursion_desired: true,
        recursion_available: true,
        z: true,
        authentic_data: true,
        checking_disabled: true,
        response_code: ResponseCode::NoError,
    };

    // packet header
    let header = DNSPacketHeader {
        id: 0x1234,
        flags: flags,
        qd_count: 0x1234,
        an_count: 0x1234,
        ns_count: 0x1234,
        ar_count: 0x1234,
    };

    // question: the labels 3 'aaa' 2 'bb' 1 'c' 0
    let question = DNSQuestion {
        name: DomainName::try_from("aaa.bb.c").unwrap(),
        qtype: QType::A,
        class: QClass::IN,
    };

    // packet
    let packet = DNSPacket::<DNSQuestion> { header: header, data: question };

    // convert to NB
    let mut buffer: Vec<u8> = Vec::new();
    let length = packet.to_network_bytes(&mut buffer);
    assert_eq!(length, 26);

    assert_eq!(
        buffer,
        &[
            0x12,
            0x34,
            0b1000_1111,
            0b1111_0000,
            0x12,
            0x34,
            0x12,
            0x34,
            0x12,
            0x34,
            0x12,
            0x34,
            3,
            97,
            97,
            97,
            2,
            98,
            98,
            1,
            99,
            0,
            0,
            1,
            0,
            1
        ]
    );
}

#[test]
fn dns_packet_header() {
    const PACKET: &'static str = r#"
0000   76 86 81 a0 00 01 00 08 00 00 00 01 
        "#;

    // from
    let s = get_sample_slice(PACKET);
    let mut dns_packet_header = DNSPacketHeader::default();
    assert!(dns_packet_header.from_network_bytes(&s, 0).is_ok());
    assert_eq!(dns_packet_header.id, 0x7686);
    assert_eq!(dns_packet_header.flags.packet_type, PacketType::Response);
    assert_eq!(dns_packet_header.flags.op_code, OpCode::Query);
    assert!(!dns_packet_header.flags.authorative_answer);
    assert!(!dns_packet_header.flags.truncated);
    assert!(dns_packet_header.flags.recursion_desired);
    assert!(dns_packet_header.flags.recursion_available);
    assert!(!dns_packet_header.flags.z);
    assert!(dns_packet_header.flags.authentic_data);
    assert!(!dns_packet_header.flags.checking_disabled);
    assert_eq!(dns_packet_header.flags.response_code, ResponseCode::NoError);
    assert_eq!(dns_packet_header.qd_count, 1);
    assert_eq!(dns_packet_header.an_count, 8);
    assert_eq!(dns_packet_header.ns_count, 0);
    assert_eq!(dns_packet_header.ar_count, 1);

    // to
    let mut buffer: Vec<u8> = Vec::new();
    let bytes_written = dns_packet_header.to_network_bytes(&mut buffer);
    assert_eq!(buffer, get_sample_slice(PACKET));
    assert_eq!(bytes_written, 12);
}

fn label(s: &str) -> LabelType {
    LabelType::Label(CharacterString::from(s))
}

#[test]
fn domain_name_from_position() {
    const PACKET: &'static str = r#"
0000   76 86 81 a0 00 01 00 08 00 00 00 01 02 68 6b 00
0010   00 02 00 01 c0 0c 00 02 00 01 00 00 54 60 00 0e
0020   01 7a 05 68 6b 69 72 63 03 6e 65 74 c0 0c c0 0c
0030   00 02 00 01 00 00 54 60 00 04 01 64 c0 22 c0 0c
0040   00 02 00 01 00 00 54 60 00 04 01 78 c0 22 c0 0c
0050   00 02 00 01 00 00 54 60 00 04 01 75 c0 22 c0 0c
0060   00 02 00 01 00 00 54 60 00 04 01 63 c0 22 c0 0c
0070   00 02 00 01 00 00 54 60 00 04 01 74 c0 22 c0 0c
0080   00 02 00 01 00 00 54 60 00 04 01 76 c0 22 c0 0c
0090   00 02 00 01 00 00 54 60 00 04 01 79 c0 22 00 00
00a0   29 02 00 00 00 00 00 00 00
"#;

    let v = get_sample_slice(PACKET);
    let s = v.as_slice();

    let mut dn = DomainName::default();
    let i = dn.from_position(12, s).unwrap();
    assert_eq!(i, 16);
    assert_eq!(dn.labels, &[label("hk"), LabelType::Root]);

    let mut dn = DomainName::default();
    let i = dn.from_position(20, s).unwrap();
    assert_eq!(i, 22);
    assert_eq!(dn.labels, &[label("hk"), LabelType::Root]);

    let mut dn = DomainName::default();
    let i = dn.from_position(32, s).unwrap();
    assert_eq!(i, 46);
    assert_eq!(
        dn.labels,
        &[label("z"), label("hkirc"), label("net"), label("hk"), LabelType::Root]
    );

    let mut dn = DomainName::default();
    let i = dn.from_position(58, s).unwrap();
    assert_eq!(i, 62);
    assert_eq!(
        dn.labels,
        &[label("d"), label("hkirc"), label("net"), label("hk"), LabelType::Root]
    );

    let mut dn = DomainName::default();
    let i = dn.from_position(58 + 16, s).unwrap();
    assert_eq!(i, 62 + 16);
    assert_eq!(
        dn.labels,
        &[label("x"), label("hkirc"), label("net"), label("hk"), LabelType::Root]
    );
}
