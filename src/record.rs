//! Resource records, and the OPT pseudo-record of EDNS0.
use vstd::prelude::*;
use crate::enums::QType;
use crate::error::{DNSError, DNSResult};
use crate::name::{DomainName, name_wire, parse_name, valid_name, lemma_name_round_trip};
use crate::network_order::{
    FromNetworkOrder, ToNetworkOrder, parse_u16, parse_u32, read_u16, read_u32, u16_wire, u32_wire,
    write_u16, write_u8, lemma_u16_round_trip, lemma_u32_round_trip,
};
use crate::rdata::{
    NameView, OptData, RData, RDataView, TYPE_OPT, options_view, options_wire, parse_rdata,
    rdata_encodable, rdata_matches_type, rdata_wire, lemma_rdata_round_trip,
};

verus! {

/// A resource record. The type and the class are kept as numbers, so that a
/// record of a type unknown here still reads (its data kept as octets), and so
/// that the class of an OPT record can carry a payload size.
#[derive(Debug, Clone, PartialEq, Eq)]
pub struct DNSResourceRecord {
    /// The owner name.
    pub name: DomainName,
    pub r_type: u16,
    pub class: u16,
    /// Seconds the record may be cached.
    pub ttl: u32,
    pub rd_data: RData,
}

/// What a resource record holds.
pub struct RecordView {
    pub name: NameView,
    pub r_type: u16,
    pub class: u16,
    pub ttl: u32,
    pub rd_data: RDataView,
}

impl View for DNSResourceRecord {
    type V = RecordView;

    open spec fn view(&self) -> RecordView {
        RecordView {
            name: self.name@,
            r_type: self.r_type,
            class: self.class,
            ttl: self.ttl,
            rd_data: self.rd_data@,
        }
    }
}

pub open spec fn record_wire(r: RecordView) -> Seq<u8> {
    name_wire(r.name) + u16_wire(r.r_type) + u16_wire(r.class) + u32_wire(r.ttl)
        + u16_wire(rdata_wire(r.rd_data).len() as u16) + rdata_wire(r.rd_data)
}

/// A record can be written when its name is valid, its data fits RDLENGTH and
/// has the form that its type calls for.
pub open spec fn record_encodable(r: RecordView) -> bool {
    &&& valid_name(r.name)
    &&& rdata_encodable(r.rd_data)
    &&& rdata_matches_type(r.r_type, r.rd_data)
    &&& rdata_wire(r.rd_data).len() <= 0xffff
}

/// The record at `pos`: name, type, class, TTL, RDLENGTH, then the data, which
/// must fill the RDLENGTH octets that follow.
#[verifier::opaque]
pub open spec fn parse_record(buf: Seq<u8>, pos: int) -> Result<(RecordView, int), DNSError> {
    match parse_name(buf, pos) {
        Err(e) => Err(e),
        Ok((name, at1)) => match parse_u16(buf, at1) {
            Err(e) => Err(e),
            Ok((r_type, at2)) => match parse_u16(buf, at2) {
                Err(e) => Err(e),
                Ok((class, at3)) => match parse_u32(buf, at3) {
                    Err(e) => Err(e),
                    Ok((ttl, at4)) => match parse_u16(buf, at4) {
                        Err(e) => Err(e),
                        Ok((rd_length, at5)) => if at5 + rd_length > buf.len() {
                            Err(DNSError::ShortRead)
                        } else {
                            match parse_rdata(buf, r_type, at5, at5 + rd_length) {
                                Err(e) => Err(e),
                                Ok(rd_data) => Ok((RecordView { name, r_type, class, ttl, rd_data }, at5 + rd_length)),
                            }
                        },
                    },
                },
            },
        },
    }
}

impl DNSResourceRecord {
    /// The record type as a declared type; `UnknownEnumValue` when it is not one.
    pub fn qtype(&self) -> (r: DNSResult<QType>)
        ensures
            match QType::from_value(self.r_type) {
                Some(t) => r == Ok::<QType, DNSError>(t),
                None => r == Err::<QType, DNSError>(DNSError::UnknownEnumValue {
                    kind: crate::error::EnumKind::QType,
                    value: self.r_type,
                }),
            },
    {
        QType::try_from(self.r_type)
    }
}

impl ToNetworkOrder for DNSResourceRecord {
    open spec fn encodable(&self) -> bool {
        record_encodable(self@)
    }

    open spec fn wire(&self) -> Seq<u8> {
        record_wire(self@)
    }

    fn to_network_bytes(&self, buffer: &mut Vec<u8>) -> (r: usize) {
        let mut length = self.name.to_network_bytes(buffer);
        length += self.r_type.to_network_bytes(buffer);
        length += self.class.to_network_bytes(buffer);
        length += self.ttl.to_network_bytes(buffer);
        // the data is written first to learn its length
        let mut data: Vec<u8> = Vec::new();
        let n = self.rd_data.to_network_bytes(&mut data);
        write_u16(buffer, n as u16);
        crate::name::write_bytes(buffer, data.as_slice());
        length + 2 + n
    }
}

impl FromNetworkOrder for DNSResourceRecord {
    open spec fn parse(buf: Seq<u8>, pos: int) -> Result<(RecordView, int), DNSError> {
        parse_record(buf, pos)
    }

    fn from_network_bytes(&mut self, buffer: &[u8], pos: usize) -> (r: DNSResult<usize>) {
        reveal(parse_record);
        let mut name = DomainName { labels: Vec::new() };
        let p = name.from_network_bytes(buffer, pos)?;
        let (r_type, p) = read_u16(buffer, p)?;
        let (class, p) = read_u16(buffer, p)?;
        let (ttl, p) = read_u32(buffer, p)?;
        let (rd_length, p) = read_u16(buffer, p)?;
        if buffer.len() - p < rd_length as usize {
            return Err(DNSError::ShortRead);
        }
        let end = p + rd_length as usize;
        let rd_data = RData::from_network_bytes(buffer, r_type, p, end)?;
        *self = DNSResourceRecord { name, r_type, class, ttl, rd_data };
        Ok(end)
    }
}

/// A record that can be written reads back as the same record.
pub proof fn lemma_record_round_trip(r: RecordView, prefix: Seq<u8>, suffix: Seq<u8>)
    requires
        record_encodable(r),
    ensures
        parse_record(prefix + record_wire(r) + suffix, prefix.len() as int)
            == Ok::<(RecordView, int), DNSError>((r, prefix.len() + record_wire(r).len() as int)),
{
    reveal(parse_record);
    let buf = prefix + record_wire(r) + suffix;
    let nw = name_wire(r.name);
    let dw = rdata_wire(r.rd_data);
    let tw = u16_wire(r.r_type);
    let cw = u16_wire(r.class);
    let lw = u32_wire(r.ttl);
    let rw = u16_wire(dw.len() as u16);
    assert(buf == prefix + nw + (tw + cw + lw + rw + dw + suffix));
    lemma_name_round_trip(r.name, prefix, tw + cw + lw + rw + dw + suffix);
    let at1 = prefix + nw;
    assert(buf == at1 + tw + (cw + lw + rw + dw + suffix));
    lemma_u16_round_trip(r.r_type, at1, cw + lw + rw + dw + suffix);
    let at2 = at1 + tw;
    assert(buf == at2 + cw + (lw + rw + dw + suffix));
    lemma_u16_round_trip(r.class, at2, lw + rw + dw + suffix);
    let at3 = at2 + cw;
    assert(buf == at3 + lw + (rw + dw + suffix));
    lemma_u32_round_trip(r.ttl, at3, rw + dw + suffix);
    let at4 = at3 + lw;
    assert(buf == at4 + rw + (dw + suffix));
    lemma_u16_round_trip(dw.len() as u16, at4, dw + suffix);
    let at5 = at4 + rw;
    assert(buf == at5 + dw + suffix);
    lemma_rdata_round_trip(r.rd_data, r.r_type, at5, suffix);
}

/// The TTL field of an OPT record: extended RCODE (8 bits), version (8 bits),
/// then the DO flag as the top bit of the 16-bit `z`.
#[derive(Debug, Clone, Copy, PartialEq, Eq, Structural)]
pub struct OptTTL {
    pub extended_rcode: u8,
    pub version: u8,
    pub z: u16,
}

impl OptTTL {
    /// Version 0, DO off.
    pub fn default() -> (r: OptTTL)
        ensures
            r == (OptTTL { extended_rcode: 0, version: 0, z: 0 }),
    {
        OptTTL { extended_rcode: 0, version: 0, z: 0 }
    }

    /// Sets the DO flag, leaving the other bits as they are.
    pub fn set_d0(&mut self)
        ensures
            final(self).z == old(self).z | 0x8000u16,
            final(self).extended_rcode == old(self).extended_rcode,
            final(self).version == old(self).version,
    {
        self.z = self.z | 0x8000;
    }

    /// The 32-bit TTL word.
    pub open spec fn spec_word(self) -> u32 {
        (self.extended_rcode as int * 0x100_0000 + self.version as int * 0x1_0000 + self.z as int) as u32
    }

    /// The fields packed in the TTL of a decoded OPT record.
    pub fn from_ttl(ttl: u32) -> (r: OptTTL)
        ensures
            r.extended_rcode == ttl / 0x100_0000,
            r.version == (ttl / 0x1_0000) % 256,
            r.z == ttl % 0x1_0000,
            r.spec_word() == ttl,
    {
        OptTTL {
            extended_rcode: (ttl / 0x100_0000) as u8,
            version: ((ttl / 0x1_0000) % 256) as u8,
            z: (ttl % 0x1_0000) as u16,
        }
    }

    /// Whether the DO flag is set.
    pub fn d0(&self) -> (r: bool)
        ensures
            r == (self.z >= 0x8000),
    {
        self.z >= 0x8000
    }
}

impl ToNetworkOrder for OptTTL {
    open spec fn encodable(&self) -> bool {
        true
    }

    open spec fn wire(&self) -> Seq<u8> {
        seq![self.extended_rcode, self.version] + u16_wire(self.z)
    }

    fn to_network_bytes(&self, buffer: &mut Vec<u8>) -> (r: usize) {
        write_u8(buffer, self.extended_rcode);
        write_u8(buffer, self.version);
        write_u16(buffer, self.z);
        4
    }
}

/// The OPT pseudo-record that a query adds to its additional section. On the
/// wire its name is the root, its type 41, its class the payload size, its
/// TTL the `OptTTL` word and its data the options.
#[derive(Debug, Clone, PartialEq, Eq)]
pub struct OPT {
    /// The largest UDP payload the requestor can take.
    pub udp_payload_size: u16,
    pub ttl: OptTTL,
    pub rd_data: Vec<OptData>,
}

/// The payload size advertised by default.
pub const DEFAULT_UDP_PAYLOAD_SIZE: u16 = 4096;

impl OPT {
    /// A payload size of 4096, version 0, DO off and no options.
    pub fn default() -> (r: OPT)
        ensures
            r.udp_payload_size == DEFAULT_UDP_PAYLOAD_SIZE,
            r.ttl == (OptTTL { extended_rcode: 0, version: 0, z: 0 }),
            r.rd_data@.len() == 0,
    {
        OPT { udp_payload_size: DEFAULT_UDP_PAYLOAD_SIZE, ttl: OptTTL::default(), rd_data: Vec::new() }
    }
}

pub open spec fn opt_wire(size: u16, ttl: OptTTL, options: Seq<(u16, Seq<u8>)>) -> Seq<u8> {
    seq![0u8] + u16_wire(TYPE_OPT) + u16_wire(size) + ttl.wire()
        + u16_wire(options_wire(options).len() as u16) + options_wire(options)
}

impl ToNetworkOrder for OPT {
    open spec fn encodable(&self) -> bool {
        &&& forall|i: int| 0 <= i < options_view(self.rd_data@).len()
            ==> (#[trigger] options_view(self.rd_data@)[i]).1.len() <= 0xffff
        &&& options_wire(options_view(self.rd_data@)).len() <= 0xffff
    }

    open spec fn wire(&self) -> Seq<u8> {
        opt_wire(self.udp_payload_size, self.ttl, options_view(self.rd_data@))
    }

    fn to_network_bytes(&self, buffer: &mut Vec<u8>) -> (r: usize) {
        write_u8(buffer, 0);
        write_u16(buffer, TYPE_OPT);
        write_u16(buffer, self.udp_payload_size);
        self.ttl.to_network_bytes(buffer);
        let mut data: Vec<u8> = Vec::new();
        let n = crate::rdata::write_options(&mut data, &self.rd_data);
        write_u16(buffer, n as u16);
        crate::name::write_bytes(buffer, data.as_slice());
        11 + n
    }
}

/// The record that an OPT pseudo-record is on the wire: root name, type 41,
/// the payload size as class, the packed TTL and the options as data.
pub open spec fn opt_record(size: u16, ttl: OptTTL, options: Seq<(u16, Seq<u8>)>) -> RecordView {
    RecordView {
        name: seq![None::<Seq<u8>>],
        r_type: TYPE_OPT,
        class: size,
        ttl: ttl.spec_word(),
        rd_data: RDataView::OPT(options),
    }
}

proof fn lemma_opt_ttl_wire(t: OptTTL)
    ensures
        u32_wire(t.spec_word()) == t.wire(),
{
    let w = t.spec_word();
    let e = t.extended_rcode;
    let v = t.version;
    let z = t.z;
    assert(w as int == e as int * 0x100_0000 + v as int * 0x1_0000 + z as int);
    assert(w / 0x100_0000 == e as u32 && (w / 0x1_0000) % 256 == v as u32 && (w / 256) % 256 == z / 256
        && w % 256 == z % 256) by (nonlinear_arith)
        requires
            w as int == e as int * 0x100_0000 + v as int * 0x1_0000 + z as int,
            e <= 255,
            v <= 255,
            z <= 0xffff,
    ;
    assert(u32_wire(w) =~= t.wire());
}

/// What an OPT pseudo-record writes reads back as a resource record of type 41
/// whose class is the payload size, whose TTL packs the `OptTTL` fields and
/// whose data are the options.
pub proof fn lemma_opt_reads_as_record(o: OPT, prefix: Seq<u8>, suffix: Seq<u8>)
    requires
        o.encodable(),
    ensures
        parse_record(prefix + o.wire() + suffix, prefix.len() as int) == Ok::<(RecordView, int), DNSError>(
            (opt_record(o.udp_payload_size, o.ttl, options_view(o.rd_data@)), prefix.len() + o.wire().len() as int),
        ),
{
    let r = opt_record(o.udp_payload_size, o.ttl, options_view(o.rd_data@));
    lemma_opt_ttl_wire(o.ttl);
    crate::name::lemma_root_wire();
    assert(record_wire(r) =~= o.wire());
    lemma_record_round_trip(r, prefix, suffix);
}

} // verus!
