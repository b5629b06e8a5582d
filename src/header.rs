//! The message header: the packed flags word and the section counts.
use vstd::prelude::*;
use crate::enums::{OpCode, PacketType, ResponseCode};
use crate::error::{DNSError, DNSResult, EnumKind};
use crate::network_order::{
    FromNetworkOrder, ToNetworkOrder, parse_u16, read_u16, u16_wire, write_u16,
    lemma_u16_round_trip,
};

verus! {

/// The second 16-bit word of the header:
/// `QR | Opcode(4) | AA | TC | RD | RA | Z | AD | CD | RCODE(4)`, QR being the
/// most significant bit.
#[derive(Debug, Clone, Copy, PartialEq, Eq, Structural)]
pub struct DNSPacketFlags {
    pub packet_type: PacketType,
    pub op_code: OpCode,
    pub authorative_answer: bool,
    pub truncated: bool,
    pub recursion_desired: bool,
    pub recursion_available: bool,
    pub z: bool,
    pub authentic_data: bool,
    pub checking_disabled: bool,
    pub response_code: ResponseCode,
}

pub open spec fn bit_value(b: bool) -> int {
    if b { 1 } else { 0 }
}

/// Bit `k` of `w`, counting from the least significant one.
pub open spec fn bit_at(w: u16, k: int) -> bool
    recommends
        0 <= k < 16,
{
    (w as int / pow2_16(k)) % 2 == 1
}

pub open spec fn pow2_16(k: int) -> int {
    if k == 15 { 32768 }
    else if k == 10 { 1024 }
    else if k == 9 { 512 }
    else if k == 8 { 256 }
    else if k == 7 { 128 }
    else if k == 6 { 64 }
    else if k == 5 { 32 }
    else if k == 4 { 16 }
    else { 1 }
}

impl DNSPacketFlags {
    /// The packed 16-bit word.
    pub open spec fn word(self) -> u16 {
        (self.packet_type.spec_value() * 32768 + self.op_code.spec_value() * 2048
            + bit_value(self.authorative_answer) * 1024 + bit_value(self.truncated) * 512
            + bit_value(self.recursion_desired) * 256 + bit_value(self.recursion_available) * 128
            + bit_value(self.z) * 64 + bit_value(self.authentic_data) * 32
            + bit_value(self.checking_disabled) * 16 + self.response_code.spec_value()) as u16
    }

    /// The flags that `w` packs: the opcode and the response code must be declared ones.
    pub open spec fn from_word(w: u16) -> Result<DNSPacketFlags, DNSError> {
        let op = (w as int / 2048 % 16) as u16;
        let rc = (w as int % 16) as u16;
        match OpCode::from_value(op) {
            None => Err(DNSError::UnknownEnumValue { kind: EnumKind::OpCode, value: op }),
            Some(op_code) => match ResponseCode::from_value(rc) {
                None => Err(DNSError::UnknownEnumValue { kind: EnumKind::ResponseCode, value: rc }),
                Some(response_code) => Ok(DNSPacketFlags {
                    packet_type: if bit_at(w, 15) { PacketType::Response } else { PacketType::Query },
                    op_code,
                    authorative_answer: bit_at(w, 10),
                    truncated: bit_at(w, 9),
                    recursion_desired: bit_at(w, 8),
                    recursion_available: bit_at(w, 7),
                    z: bit_at(w, 6),
                    authentic_data: bit_at(w, 5),
                    checking_disabled: bit_at(w, 4),
                    response_code,
                }),
            },
        }
    }

    pub open spec fn default_spec() -> DNSPacketFlags {
        DNSPacketFlags {
            packet_type: PacketType::Query,
            op_code: OpCode::Query,
            authorative_answer: false,
            truncated: false,
            recursion_desired: false,
            recursion_available: false,
            z: false,
            authentic_data: false,
            checking_disabled: false,
            response_code: ResponseCode::NoError,
        }
    }

    /// All flags cleared: a standard query with no error.
    pub fn default() -> (r: DNSPacketFlags)
        ensures
            r == Self::default_spec(),
            r == (DNSPacketFlags {
                packet_type: PacketType::Query,
                op_code: OpCode::Query,
                authorative_answer: false,
                truncated: false,
                recursion_desired: false,
                recursion_available: false,
                z: false,
                authentic_data: false,
                checking_disabled: false,
                response_code: ResponseCode::NoError,
            }),
    {
        DNSPacketFlags {
            packet_type: PacketType::Query,
            op_code: OpCode::Query,
            authorative_answer: false,
            truncated: false,
            recursion_desired: false,
            recursion_available: false,
            z: false,
            authentic_data: false,
            checking_disabled: false,
            response_code: ResponseCode::NoError,
        }
    }
}

fn bit_of(b: bool, weight: u16) -> (r: u16)
    ensures
        r == bit_value(b) * weight,
{
    if b { weight } else { 0 }
}

fn is_set(w: u16, weight: u16) -> (r: bool)
    requires
        weight > 0,
    ensures
        r == ((w as int / weight as int) % 2 == 1),
{
    (w / weight) % 2 == 1
}

impl View for DNSPacketFlags {
    type V = DNSPacketFlags;

    open spec fn view(&self) -> DNSPacketFlags {
        *self
    }
}

impl ToNetworkOrder for DNSPacketFlags {
    /// The response code must fit the four bits of RCODE.
    open spec fn encodable(&self) -> bool {
        self.response_code.spec_value() < 16
    }

    open spec fn wire(&self) -> Seq<u8> {
        u16_wire(self.word())
    }

    fn to_network_bytes(&self, buffer: &mut Vec<u8>) -> (r: usize) {
        let w: u16 = self.packet_type.value() * 32768 + self.op_code.value() * 2048
            + bit_of(self.authorative_answer, 1024) + bit_of(self.truncated, 512)
            + bit_of(self.recursion_desired, 256) + bit_of(self.recursion_available, 128)
            + bit_of(self.z, 64) + bit_of(self.authentic_data, 32)
            + bit_of(self.checking_disabled, 16) + self.response_code.value();
        write_u16(buffer, w);
        2
    }
}

impl FromNetworkOrder for DNSPacketFlags {
    open spec fn parse(buf: Seq<u8>, pos: int) -> Result<(DNSPacketFlags, int), DNSError> {
        match parse_u16(buf, pos) {
            Ok((w, end)) => match DNSPacketFlags::from_word(w) {
                Ok(f) => Ok((f, end)),
                Err(e) => Err(e),
            },
            Err(e) => Err(e),
        }
    }

    fn from_network_bytes(&mut self, buffer: &[u8], pos: usize) -> (r: DNSResult<usize>) {
        let (w, end) = read_u16(buffer, pos)?;
        let op_code = OpCode::try_from((w / 2048) % 16)?;
        let response_code = ResponseCode::try_from(w % 16)?;
        *self = DNSPacketFlags {
            packet_type: if is_set(w, 32768) { PacketType::Response } else { PacketType::Query },
            op_code,
            authorative_answer: is_set(w, 1024),
            truncated: is_set(w, 512),
            recursion_desired: is_set(w, 256),
            recursion_available: is_set(w, 128),
            z: is_set(w, 64),
            authentic_data: is_set(w, 32),
            checking_disabled: is_set(w, 16),
            response_code,
        };
        Ok(end)
    }
}

proof fn lemma_unpack(qr: u16, op: u16, aa: u16, tc: u16, rd: u16, ra: u16, z: u16, ad: u16, cd: u16, rc: u16)
    requires
        qr <= 1, op <= 15, aa <= 1, tc <= 1, rd <= 1, ra <= 1, z <= 1, ad <= 1, cd <= 1, rc <= 15,
    ensures
        ({
            let w = (qr * 32768 + op * 2048 + aa * 1024 + tc * 512 + rd * 256 + ra * 128 + z * 64
                + ad * 32 + cd * 16 + rc) as u16;
            &&& w / 32768 == qr
            &&& w / 2048 % 16 == op
            &&& w / 1024 % 2 == aa
            &&& w / 512 % 2 == tc
            &&& w / 256 % 2 == rd
            &&& w / 128 % 2 == ra
            &&& w / 64 % 2 == z
            &&& w / 32 % 2 == ad
            &&& w / 16 % 2 == cd
            &&& w % 16 == rc
        }),
{
    assert({
        let w = (qr * 32768 + op * 2048 + aa * 1024 + tc * 512 + rd * 256 + ra * 128 + z * 64
            + ad * 32 + cd * 16 + rc) as u16;
        &&& w / 32768 == qr
        &&& w / 2048 % 16 == op
        &&& w / 1024 % 2 == aa
        &&& w / 512 % 2 == tc
        &&& w / 256 % 2 == rd
        &&& w / 128 % 2 == ra
        &&& w / 64 % 2 == z
        &&& w / 32 % 2 == ad
        &&& w / 16 % 2 == cd
        &&& w % 16 == rc
    }) by (bit_vector)
        requires
            qr <= 1, op <= 15, aa <= 1, tc <= 1, rd <= 1, ra <= 1, z <= 1, ad <= 1, cd <= 1, rc <= 15;
}

/// Unpacking the packed word of any flags whose response code fits RCODE gives
/// the same flags, reserved Z bit included.
pub proof fn lemma_flags_word_round_trip(f: DNSPacketFlags)
    requires
        f.encodable(),
    ensures
        DNSPacketFlags::from_word(f.word()) == Ok::<DNSPacketFlags, DNSError>(f),
{
    let qr = f.packet_type.spec_value();
    let op = f.op_code.spec_value();
    let rc = f.response_code.spec_value();
    let aa = bit_value(f.authorative_answer) as u16;
    let tc = bit_value(f.truncated) as u16;
    let rd = bit_value(f.recursion_desired) as u16;
    let ra = bit_value(f.recursion_available) as u16;
    let z = bit_value(f.z) as u16;
    let ad = bit_value(f.authentic_data) as u16;
    let cd = bit_value(f.checking_disabled) as u16;
    lemma_unpack(qr, op, aa, tc, rd, ra, z, ad, cd, rc);
    crate::enums::lemma_opcode_codes(f.op_code, 0, seq![], seq![]);
    crate::enums::lemma_response_code_codes(f.response_code, 0, seq![], seq![]);
    assert(f.word() == (qr * 32768 + op * 2048 + aa * 1024 + tc * 512 + rd * 256 + ra * 128 + z * 64
        + ad * 32 + cd * 16 + rc) as u16);
}

/// Decoding the two octets of any flags whose response code fits RCODE gives the same flags.
pub proof fn lemma_flags_round_trip(f: DNSPacketFlags, prefix: Seq<u8>, suffix: Seq<u8>)
    requires
        f.encodable(),
    ensures
        DNSPacketFlags::parse(prefix + f.wire() + suffix, prefix.len() as int)
            == Ok::<(DNSPacketFlags, int), DNSError>((f, prefix.len() as int + 2)),
{
    lemma_u16_round_trip(f.word(), prefix, suffix);
    lemma_flags_word_round_trip(f);
}

/// The fixed 12-octet header of every message.
#[derive(Debug, Clone, Copy, PartialEq, Eq, Structural)]
pub struct DNSPacketHeader {
    /// Identifier copied from a query into its reply.
    pub id: u16,
    pub flags: DNSPacketFlags,
    /// Number of entries in the question section.
    pub qd_count: u16,
    /// Number of records in the answer section.
    pub an_count: u16,
    /// Number of records in the authority section.
    pub ns_count: u16,
    /// Number of records in the additional section.
    pub ar_count: u16,
}

impl DNSPacketHeader {
    /// A header with a zero identifier, cleared flags and empty sections.
    pub fn default() -> (r: DNSPacketHeader)
        ensures
            r.id == 0,
            r.flags == DNSPacketFlags::default_spec(),
            r.qd_count == 0 && r.an_count == 0 && r.ns_count == 0 && r.ar_count == 0,
    {
        DNSPacketHeader {
            id: 0,
            flags: DNSPacketFlags::default(),
            qd_count: 0,
            an_count: 0,
            ns_count: 0,
            ar_count: 0,
        }
    }
}

impl View for DNSPacketHeader {
    type V = DNSPacketHeader;

    open spec fn view(&self) -> DNSPacketHeader {
        *self
    }
}

impl ToNetworkOrder for DNSPacketHeader {
    open spec fn encodable(&self) -> bool {
        self.flags.encodable()
    }

    open spec fn wire(&self) -> Seq<u8> {
        u16_wire(self.id) + self.flags.wire() + u16_wire(self.qd_count) + u16_wire(self.an_count)
            + u16_wire(self.ns_count) + u16_wire(self.ar_count)
    }

    fn to_network_bytes(&self, buffer: &mut Vec<u8>) -> (r: usize) {
        let mut length = self.id.to_network_bytes(buffer);
        length += self.flags.to_network_bytes(buffer);
        length += self.qd_count.to_network_bytes(buffer);
        length += self.an_count.to_network_bytes(buffer);
        length += self.ns_count.to_network_bytes(buffer);
        length += self.ar_count.to_network_bytes(buffer);
        length
    }
}

impl FromNetworkOrder for DNSPacketHeader {
    open spec fn parse(buf: Seq<u8>, pos: int) -> Result<(DNSPacketHeader, int), DNSError> {
        match parse_u16(buf, pos) {
            Err(e) => Err(e),
            Ok((id, at1)) => match DNSPacketFlags::parse(buf, at1) {
                Err(e) => Err(e),
                Ok((flags, at2)) => match parse_u16(buf, at2) {
                    Err(e) => Err(e),
                    Ok((qd_count, at3)) => match parse_u16(buf, at3) {
                        Err(e) => Err(e),
                        Ok((an_count, at4)) => match parse_u16(buf, at4) {
                            Err(e) => Err(e),
                            Ok((ns_count, at5)) => match parse_u16(buf, at5) {
                                Err(e) => Err(e),
                                Ok((ar_count, at6)) => Ok((
                                    DNSPacketHeader { id, flags, qd_count, an_count, ns_count, ar_count },
                                    at6,
                                )),
                            },
                        },
                    },
                },
            },
        }
    }

    fn from_network_bytes(&mut self, buffer: &[u8], pos: usize) -> (r: DNSResult<usize>) {
        let mut h = DNSPacketHeader::default();
        let p = h.id.from_network_bytes(buffer, pos)?;
        let p = h.flags.from_network_bytes(buffer, p)?;
        let p = h.qd_count.from_network_bytes(buffer, p)?;
        let p = h.an_count.from_network_bytes(buffer, p)?;
        let p = h.ns_count.from_network_bytes(buffer, p)?;
        let p = h.ar_count.from_network_bytes(buffer, p)?;
        *self = h;
        Ok(p)
    }
}

/// Decoding the 12 octets of any header whose response code fits RCODE gives the same header.
#[verifier::rlimit(60)]
pub proof fn lemma_header_round_trip(h: DNSPacketHeader, prefix: Seq<u8>, suffix: Seq<u8>)
    requires
        h.encodable(),
    ensures
        DNSPacketHeader::parse(prefix + h.wire() + suffix, prefix.len() as int)
            == Ok::<(DNSPacketHeader, int), DNSError>((h, prefix.len() as int + 12)),
{
    let buf = prefix + h.wire() + suffix;
    let w = h.wire();
    let p = prefix.len() as int;
    assert(buf == prefix + u16_wire(h.id) + (w.subrange(2, 12) + suffix));
    lemma_u16_round_trip(h.id, prefix, w.subrange(2, 12) + suffix);
    assert(buf == (prefix + u16_wire(h.id)) + h.flags.wire() + (w.subrange(4, 12) + suffix));
    lemma_flags_round_trip(h.flags, prefix + u16_wire(h.id), w.subrange(4, 12) + suffix);
    assert(buf == prefix + w.subrange(0, 4) + u16_wire(h.qd_count) + (w.subrange(6, 12) + suffix));
    lemma_u16_round_trip(h.qd_count, prefix + w.subrange(0, 4), w.subrange(6, 12) + suffix);
    assert(buf == prefix + w.subrange(0, 6) + u16_wire(h.an_count) + (w.subrange(8, 12) + suffix));
    lemma_u16_round_trip(h.an_count, prefix + w.subrange(0, 6), w.subrange(8, 12) + suffix);
    assert(buf == prefix + w.subrange(0, 8) + u16_wire(h.ns_count) + (w.subrange(10, 12) + suffix));
    lemma_u16_round_trip(h.ns_count, prefix + w.subrange(0, 8), w.subrange(10, 12) + suffix);
    assert(buf == prefix + w.subrange(0, 10) + u16_wire(h.ar_count) + suffix);
    lemma_u16_round_trip(h.ar_count, prefix + w.subrange(0, 10), suffix);
}

} // verus!
