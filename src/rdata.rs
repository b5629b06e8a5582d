//! Record data: the payload of a resource record, whose layout depends on the
//! record type, with an opaque form for the types that have no decoder here.
use vstd::prelude::*;
use crate::error::{DNSError, DNSResult};
use crate::name::{
    CharacterString, DomainName, name_wire, parse_character_string, parse_name, valid_name,
    write_bytes,
};
use crate::name::{lemma_character_string_round_trip, lemma_name_round_trip, parse_name as name_at_spec};
use crate::network_order::{lemma_u16_round_trip, lemma_u32_round_trip,
    FromNetworkOrder, ToNetworkOrder, parse_u16, parse_u32, read_u16, read_u32, u16_wire, u32_wire,
    write_u16,
};

verus! {

/// The labels of a domain name, the root being `None`.
pub type NameView = Seq<Option<Seq<u8>>>;

/// Record types whose data has a layout of its own.
pub const TYPE_A: u16 = 1;
pub const TYPE_NS: u16 = 2;
pub const TYPE_CNAME: u16 = 5;
pub const TYPE_SOA: u16 = 6;
pub const TYPE_PTR: u16 = 12;
pub const TYPE_HINFO: u16 = 13;
pub const TYPE_MX: u16 = 15;
pub const TYPE_TXT: u16 = 16;
pub const TYPE_AAAA: u16 = 28;
pub const TYPE_OPT: u16 = 41;

/// Start of authority.
#[derive(Debug, Clone, PartialEq, Eq)]
pub struct SOA {
    /// The name server that was the primary source of data for the zone.
    pub mname: DomainName,
    /// The mailbox of the person responsible for the zone.
    pub rname: DomainName,
    pub serial: u32,
    pub refresh: u32,
    pub retry: u32,
    pub expire: u32,
    pub minimum: u32,
}

/// Host information.
#[derive(Debug, Clone, PartialEq, Eq)]
pub struct HINFO {
    pub cpu: CharacterString,
    pub os: CharacterString,
}

/// Mail exchange.
#[derive(Debug, Clone, PartialEq, Eq)]
pub struct MX {
    /// Lower values are preferred.
    pub preference: u16,
    pub exchange: DomainName,
}

/// One EDNS0 option: a code and its octets; the length is that of the octets.
#[derive(Debug, Clone, PartialEq, Eq)]
pub struct OptData {
    pub option_code: u16,
    pub option_data: Vec<u8>,
}

/// The data of a resource record.
#[derive(Debug, Clone, PartialEq, Eq)]
pub enum RData {
    /// An IPv4 address.
    A(u32),
    NS(DomainName),
    CNAME(DomainName),
    PTR(DomainName),
    SOA(SOA),
    HINFO(HINFO),
    MX(MX),
    /// One or more character strings filling the data.
    TXT(Vec<CharacterString>),
    /// An IPv6 address: 16 octets.
    AAAA(Vec<u8>),
    /// The options of an OPT pseudo-record.
    OPT(Vec<OptData>),
    /// The octets of a type that has no decoder here, kept as they are.
    Unknown(Vec<u8>),
}

/// What record data holds.
pub enum RDataView {
    A(u32),
    NS(NameView),
    CNAME(NameView),
    PTR(NameView),
    SOA(NameView, NameView, u32, u32, u32, u32, u32),
    HINFO(Seq<u8>, Seq<u8>),
    MX(u16, NameView),
    TXT(Seq<Seq<u8>>),
    AAAA(Seq<u8>),
    OPT(Seq<(u16, Seq<u8>)>),
    Unknown(Seq<u8>),
}

pub open spec fn strings_view(v: Seq<CharacterString>) -> Seq<Seq<u8>> {
    v.map_values(|c: CharacterString| c@)
}

pub open spec fn options_view(v: Seq<OptData>) -> Seq<(u16, Seq<u8>)> {
    v.map_values(|o: OptData| (o.option_code, o.option_data@))
}

impl View for RData {
    type V = RDataView;

    open spec fn view(&self) -> RDataView {
        match self {
            RData::A(a) => RDataView::A(*a),
            RData::NS(n) => RDataView::NS(n@),
            RData::CNAME(n) => RDataView::CNAME(n@),
            RData::PTR(n) => RDataView::PTR(n@),
            RData::SOA(s) => RDataView::SOA(s.mname@, s.rname@, s.serial, s.refresh, s.retry, s.expire, s.minimum),
            RData::HINFO(h) => RDataView::HINFO(h.cpu@, h.os@),
            RData::MX(m) => RDataView::MX(m.preference, m.exchange@),
            RData::TXT(t) => RDataView::TXT(strings_view(t@)),
            RData::AAAA(a) => RDataView::AAAA(a@),
            RData::OPT(o) => RDataView::OPT(options_view(o@)),
            RData::Unknown(u) => RDataView::Unknown(u@),
        }
    }
}

/// Whether `v` is the form of data that records of type `t` carry.
pub open spec fn rdata_matches_type(t: u16, v: RDataView) -> bool {
    match v {
        RDataView::A(_) => t == TYPE_A,
        RDataView::NS(_) => t == TYPE_NS,
        RDataView::CNAME(_) => t == TYPE_CNAME,
        RDataView::PTR(_) => t == TYPE_PTR,
        RDataView::SOA(..) => t == TYPE_SOA,
        RDataView::HINFO(..) => t == TYPE_HINFO,
        RDataView::MX(..) => t == TYPE_MX,
        RDataView::TXT(_) => t == TYPE_TXT,
        RDataView::AAAA(_) => t == TYPE_AAAA,
        RDataView::OPT(_) => t == TYPE_OPT,
        RDataView::Unknown(_) => !has_layout(t),
    }
}

/// Record types decoded into a structure rather than kept as octets.
pub open spec fn has_layout(t: u16) -> bool {
    t == TYPE_A || t == TYPE_NS || t == TYPE_CNAME || t == TYPE_PTR || t == TYPE_SOA
        || t == TYPE_HINFO || t == TYPE_MX || t == TYPE_TXT || t == TYPE_AAAA || t == TYPE_OPT
}

/// The wire form of a run of character strings.
pub open spec fn strings_wire(v: Seq<Seq<u8>>) -> Seq<u8>
    decreases v.len(),
{
    if v.len() == 0 {
        seq![]
    } else {
        seq![v[0].len() as u8] + v[0] + strings_wire(v.drop_first())
    }
}

/// The wire form of a run of options: code, length, octets.
pub open spec fn options_wire(v: Seq<(u16, Seq<u8>)>) -> Seq<u8>
    decreases v.len(),
{
    if v.len() == 0 {
        seq![]
    } else {
        u16_wire(v[0].0) + u16_wire(v[0].1.len() as u16) + v[0].1 + options_wire(v.drop_first())
    }
}

pub open spec fn rdata_wire(v: RDataView) -> Seq<u8> {
    match v {
        RDataView::A(a) => u32_wire(a),
        RDataView::NS(n) => name_wire(n),
        RDataView::CNAME(n) => name_wire(n),
        RDataView::PTR(n) => name_wire(n),
        RDataView::SOA(m, r, a, b, c, d, e) => name_wire(m) + name_wire(r) + u32_wire(a) + u32_wire(b)
            + u32_wire(c) + u32_wire(d) + u32_wire(e),
        RDataView::HINFO(c, o) => seq![c.len() as u8] + c + (seq![o.len() as u8] + o),
        RDataView::MX(p, n) => u16_wire(p) + name_wire(n),
        RDataView::TXT(t) => strings_wire(t),
        RDataView::AAAA(a) => a,
        RDataView::OPT(o) => options_wire(o),
        RDataView::Unknown(u) => u,
    }
}

/// Whether data respects the limits of its wire form.
pub open spec fn rdata_encodable(v: RDataView) -> bool {
    match v {
        RDataView::A(_) => true,
        RDataView::NS(n) => valid_name(n),
        RDataView::CNAME(n) => valid_name(n),
        RDataView::PTR(n) => valid_name(n),
        RDataView::SOA(m, r, ..) => valid_name(m) && valid_name(r),
        RDataView::HINFO(c, o) => c.len() <= 255 && o.len() <= 255,
        RDataView::MX(_, n) => valid_name(n),
        RDataView::TXT(t) => t.len() >= 1 && forall|i: int| 0 <= i < t.len() ==> (#[trigger] t[i]).len() <= 255,
        RDataView::AAAA(a) => a.len() == 16,
        RDataView::OPT(o) => forall|i: int| 0 <= i < o.len() ==> (#[trigger] o[i]).1.len() <= 0xffff,
        RDataView::Unknown(_) => true,
    }
}

/// The character strings from `p` up to `end`.
pub open spec fn parse_strings(buf: Seq<u8>, p: int, end: int) -> Result<Seq<Seq<u8>>, DNSError>
    decreases end - p,
{
    if p >= end {
        Ok(seq![])
    } else if p < 0 || p >= buf.len() {
        Err(DNSError::ShortRead)
    } else {
        let next = p + 1 + buf[p] as int;
        if next > buf.len() {
            Err(DNSError::ShortRead)
        } else if next > end {
            Err(DNSError::BadRdLength)
        } else {
            match parse_strings(buf, next, end) {
                Ok(rest) => Ok(seq![buf.subrange(p + 1, next)] + rest),
                Err(e) => Err(e),
            }
        }
    }
}

/// The options from `p` up to `end`.
pub open spec fn parse_options(buf: Seq<u8>, p: int, end: int) -> Result<Seq<(u16, Seq<u8>)>, DNSError>
    decreases end - p,
{
    if p >= end {
        Ok(seq![])
    } else if p < 0 || p + 4 > buf.len() {
        Err(DNSError::ShortRead)
    } else {
        let code = crate::network_order::be_u16(buf[p], buf[p + 1]);
        let len = crate::network_order::be_u16(buf[p + 2], buf[p + 3]);
        let next = p + 4 + len as int;
        if next > buf.len() {
            Err(DNSError::ShortRead)
        } else if next > end {
            Err(DNSError::BadRdLength)
        } else {
            match parse_options(buf, next, end) {
                Ok(rest) => Ok(seq![(code, buf.subrange(p + 4, next))] + rest),
                Err(e) => Err(e),
            }
        }
    }
}

/// Data read from `p` must end exactly at `end`.
pub open spec fn fit(r: Result<(RDataView, int), DNSError>, end: int) -> Result<RDataView, DNSError> {
    match r {
        Err(e) => Err(e),
        Ok((v, e)) => if e == end {
            Ok(v)
        } else {
            Err(DNSError::BadRdLength)
        },
    }
}

pub open spec fn parse_soa(buf: Seq<u8>, p: int) -> Result<(RDataView, int), DNSError> {
    match parse_name(buf, p) {
        Err(e) => Err(e),
        Ok((m, at1)) => match parse_name(buf, at1) {
            Err(e) => Err(e),
            Ok((r, at2)) => match parse_u32(buf, at2) {
                Err(e) => Err(e),
                Ok((a, at3)) => match parse_u32(buf, at3) {
                    Err(e) => Err(e),
                    Ok((b, at4)) => match parse_u32(buf, at4) {
                        Err(e) => Err(e),
                        Ok((c, at5)) => match parse_u32(buf, at5) {
                            Err(e) => Err(e),
                            Ok((d, at6)) => match parse_u32(buf, at6) {
                                Err(e) => Err(e),
                                Ok((x, at7)) => Ok((RDataView::SOA(m, r, a, b, c, d, x), at7)),
                            },
                        },
                    },
                },
            },
        },
    }
}

pub open spec fn parse_hinfo(buf: Seq<u8>, p: int) -> Result<(RDataView, int), DNSError> {
    match parse_character_string(buf, p) {
        Err(e) => Err(e),
        Ok((c, at1)) => match parse_character_string(buf, at1) {
            Err(e) => Err(e),
            Ok((o, at2)) => Ok((RDataView::HINFO(c, o), at2)),
        },
    }
}

pub open spec fn parse_mx(buf: Seq<u8>, p: int) -> Result<(RDataView, int), DNSError> {
    match parse_u16(buf, p) {
        Err(e) => Err(e),
        Ok((pref, at1)) => match parse_name(buf, at1) {
            Err(e) => Err(e),
            Ok((n, at2)) => Ok((RDataView::MX(pref, n), at2)),
        },
    }
}

/// A name as record data of kind `k` (NS, CNAME or PTR).
pub open spec fn parse_name_data(buf: Seq<u8>, p: int, t: u16) -> Result<(RDataView, int), DNSError> {
    match parse_name(buf, p) {
        Err(e) => Err(e),
        Ok((n, at1)) => Ok((
            if t == TYPE_NS {
                RDataView::NS(n)
            } else if t == TYPE_CNAME {
                RDataView::CNAME(n)
            } else {
                RDataView::PTR(n)
            },
            at1,
        )),
    }
}

/// The data of a record of type `t` held in the octets `start..end` of the
/// message `buf`. Names inside may point anywhere before them in the message.
#[verifier::opaque]
pub open spec fn parse_rdata(buf: Seq<u8>, t: u16, start: int, end: int) -> Result<RDataView, DNSError> {
    if t == TYPE_A {
        fit(
            match parse_u32(buf, start) {
                Err(e) => Err(e),
                Ok((a, p)) => Ok((RDataView::A(a), p)),
            },
            end,
        )
    } else if t == TYPE_NS || t == TYPE_CNAME || t == TYPE_PTR {
        fit(parse_name_data(buf, start, t), end)
    } else if t == TYPE_SOA {
        fit(parse_soa(buf, start), end)
    } else if t == TYPE_HINFO {
        fit(parse_hinfo(buf, start), end)
    } else if t == TYPE_MX {
        fit(parse_mx(buf, start), end)
    } else if t == TYPE_TXT {
        // one or more strings
        if start >= end {
            Err(DNSError::BadRdLength)
        } else {
            match parse_strings(buf, start, end) {
                Ok(v) => Ok(RDataView::TXT(v)),
                Err(e) => Err(e),
            }
        }
    } else if t == TYPE_AAAA {
        if 0 <= start && start + 16 <= buf.len() {
            fit(Ok((RDataView::AAAA(buf.subrange(start, start + 16)), start + 16)), end)
        } else {
            Err(DNSError::ShortRead)
        }
    } else if t == TYPE_OPT {
        match parse_options(buf, start, end) {
            Ok(v) => Ok(RDataView::OPT(v)),
            Err(e) => Err(e),
        }
    } else {
        Ok(RDataView::Unknown(buf.subrange(start, end)))
    }
}

proof fn lemma_strings_wire_append(a: Seq<Seq<u8>>, b: Seq<Seq<u8>>)
    ensures
        strings_wire(a + b) == strings_wire(a) + strings_wire(b),
    decreases a.len(),
{
    if a.len() == 0 {
        assert(a + b == b);
    } else {
        assert((a + b).drop_first() == a.drop_first() + b);
        lemma_strings_wire_append(a.drop_first(), b);
    }
}

proof fn lemma_options_wire_append(a: Seq<(u16, Seq<u8>)>, b: Seq<(u16, Seq<u8>)>)
    ensures
        options_wire(a + b) == options_wire(a) + options_wire(b),
    decreases a.len(),
{
    if a.len() == 0 {
        assert(a + b == b);
    } else {
        assert((a + b).drop_first() == a.drop_first() + b);
        lemma_options_wire_append(a.drop_first(), b);
    }
}

fn write_strings(buffer: &mut Vec<u8>, v: &Vec<CharacterString>) -> (r: usize)
    requires
        forall|i: int| 0 <= i < strings_view(v@).len() ==> (#[trigger] strings_view(v@)[i]).len() <= 255,
        old(buffer)@.len() + strings_wire(strings_view(v@)).len() <= usize::MAX,
    ensures
        final(buffer)@ == old(buffer)@ + strings_wire(strings_view(v@)),
        r == strings_wire(strings_view(v@)).len(),
{
    let ghost start = buffer@;
    let ghost sv = strings_view(v@);
    let mut i: usize = 0;
    let mut length: usize = 0;
    proof {
        assert(sv.subrange(0, 0) == Seq::<Seq<u8>>::empty());
        assert(sv.subrange(0, sv.len() as int) == sv);
        assert(start + Seq::<u8>::empty() == start);
        assert(Seq::<u8>::empty() + strings_wire(sv) == strings_wire(sv));
    }
    while i < v.len()
        invariant
            sv == strings_view(v@),
            forall|i: int| 0 <= i < sv.len() ==> (#[trigger] sv[i]).len() <= 255,
            i <= sv.len(),
            buffer@ == start + strings_wire(sv.subrange(0, i as int)),
            length == strings_wire(sv.subrange(0, i as int)).len(),
            start.len() + strings_wire(sv).len() <= usize::MAX,
            strings_wire(sv) == strings_wire(sv.subrange(0, i as int)) + strings_wire(sv.subrange(i as int, sv.len() as int)),
        decreases sv.len() - i,
    {
        let ghost d = sv[i as int];
        proof {
            assert(sv.subrange(i as int, sv.len() as int) == seq![d] + sv.subrange(i + 1, sv.len() as int));
            lemma_strings_wire_append(seq![d], sv.subrange(i + 1, sv.len() as int));
            assert(seq![d].drop_first() == Seq::<Seq<u8>>::empty());
            assert(seq![d][0] == d);
            assert(strings_wire(Seq::<Seq<u8>>::empty()) == Seq::<u8>::empty());
            assert(strings_wire(seq![d]) == seq![d.len() as u8] + d + Seq::<u8>::empty());
            assert(seq![d.len() as u8] + d + Seq::<u8>::empty() == seq![d.len() as u8] + d);
            assert(sv.subrange(0, i + 1) == sv.subrange(0, i as int) + seq![d]);
            lemma_strings_wire_append(sv.subrange(0, i as int), seq![d]);
            assert(strings_wire(sv) == strings_wire(sv.subrange(0, i + 1)) + strings_wire(sv.subrange(i + 1, sv.len() as int)));
            assert(v@[i as int]@ == d);
        }
        let n = v[i].to_network_bytes(buffer);
        length += n;
        i += 1;
    }
    assert(sv.subrange(0, i as int) == sv);
    length
}

pub(crate) fn write_options(buffer: &mut Vec<u8>, v: &Vec<OptData>) -> (r: usize)
    requires
        forall|i: int| 0 <= i < options_view(v@).len() ==> (#[trigger] options_view(v@)[i]).1.len() <= 0xffff,
        old(buffer)@.len() + options_wire(options_view(v@)).len() <= usize::MAX,
    ensures
        final(buffer)@ == old(buffer)@ + options_wire(options_view(v@)),
        r == options_wire(options_view(v@)).len(),
{
    let ghost start = buffer@;
    let ghost ov = options_view(v@);
    let mut i: usize = 0;
    let mut length: usize = 0;
    proof {
        assert(ov.subrange(0, 0) == Seq::<(u16, Seq<u8>)>::empty());
        assert(ov.subrange(0, ov.len() as int) == ov);
        assert(start + Seq::<u8>::empty() == start);
        assert(Seq::<u8>::empty() + options_wire(ov) == options_wire(ov));
    }
    while i < v.len()
        invariant
            ov == options_view(v@),
            forall|i: int| 0 <= i < ov.len() ==> (#[trigger] ov[i]).1.len() <= 0xffff,
            i <= ov.len(),
            buffer@ == start + options_wire(ov.subrange(0, i as int)),
            length == options_wire(ov.subrange(0, i as int)).len(),
            start.len() + options_wire(ov).len() <= usize::MAX,
            options_wire(ov) == options_wire(ov.subrange(0, i as int)) + options_wire(ov.subrange(i as int, ov.len() as int)),
        decreases ov.len() - i,
    {
        let ghost d = ov[i as int];
        proof {
            assert(ov.subrange(i as int, ov.len() as int) == seq![d] + ov.subrange(i + 1, ov.len() as int));
            lemma_options_wire_append(seq![d], ov.subrange(i + 1, ov.len() as int));
            assert(seq![d].drop_first() == Seq::<(u16, Seq<u8>)>::empty());
            assert(seq![d][0] == d);
            assert(options_wire(Seq::<(u16, Seq<u8>)>::empty()) == Seq::<u8>::empty());
            assert(options_wire(seq![d]) == u16_wire(d.0) + u16_wire(d.1.len() as u16) + d.1 + Seq::<u8>::empty());
            assert(u16_wire(d.0) + u16_wire(d.1.len() as u16) + d.1 + Seq::<u8>::empty() == u16_wire(d.0) + u16_wire(d.1.len() as u16) + d.1);
            assert(ov.subrange(0, i + 1) == ov.subrange(0, i as int) + seq![d]);
            lemma_options_wire_append(ov.subrange(0, i as int), seq![d]);
            assert(options_wire(ov) == options_wire(ov.subrange(0, i + 1)) + options_wire(ov.subrange(i + 1, ov.len() as int)));
        }
        let o = &v[i];
        write_u16(buffer, o.option_code);
        write_u16(buffer, o.option_data.len() as u16);
        write_bytes(buffer, o.option_data.as_slice());
        length += 4 + o.option_data.len();
        i += 1;
    }
    assert(ov.subrange(0, i as int) == ov);
    length
}

impl ToNetworkOrder for RData {
    open spec fn encodable(&self) -> bool {
        rdata_encodable(self@)
    }

    open spec fn wire(&self) -> Seq<u8> {
        rdata_wire(self@)
    }

    fn to_network_bytes(&self, buffer: &mut Vec<u8>) -> (r: usize) {
        match self {
            RData::A(a) => a.to_network_bytes(buffer),
            RData::NS(n) => n.to_network_bytes(buffer),
            RData::CNAME(n) => n.to_network_bytes(buffer),
            RData::PTR(n) => n.to_network_bytes(buffer),
            RData::SOA(soa) => {
                let mut length = soa.mname.to_network_bytes(buffer);
                length += soa.rname.to_network_bytes(buffer);
                length += soa.serial.to_network_bytes(buffer);
                length += soa.refresh.to_network_bytes(buffer);
                length += soa.retry.to_network_bytes(buffer);
                length += soa.expire.to_network_bytes(buffer);
                length += soa.minimum.to_network_bytes(buffer);
                length
            },
            RData::HINFO(h) => {
                let length = h.cpu.to_network_bytes(buffer);
                length + h.os.to_network_bytes(buffer)
            },
            RData::MX(mx) => {
                let length = mx.preference.to_network_bytes(buffer);
                length + mx.exchange.to_network_bytes(buffer)
            },
            RData::TXT(v) => write_strings(buffer, v),
            RData::AAAA(a) => {
                write_bytes(buffer, a.as_slice());
                a.len()
            },
            RData::OPT(v) => write_options(buffer, v),
            RData::Unknown(u) => {
                write_bytes(buffer, u.as_slice());
                u.len()
            },
        }
    }
}

proof fn lemma_strings_of_wire(buf: Seq<u8>, p: int, ts: Seq<Seq<u8>>)
    requires
        0 <= p,
        p + strings_wire(ts).len() <= buf.len(),
        buf.subrange(p, p + strings_wire(ts).len()) == strings_wire(ts),
        forall|i: int| 0 <= i < ts.len() ==> (#[trigger] ts[i]).len() <= 255,
    ensures
        parse_strings(buf, p, p + strings_wire(ts).len()) == Ok::<Seq<Seq<u8>>, DNSError>(ts),
    decreases ts.len(),
{
    let w = strings_wire(ts);
    let end = p + w.len();
    if ts.len() == 0 {
        assert(ts == Seq::<Seq<u8>>::empty());
    } else {
        let d = ts[0];
        let rest = ts.drop_first();
        let wr = strings_wire(rest);
        assert(w == seq![d.len() as u8] + d + wr);
        assert(buf[p] == w[0]);
        assert(buf[p] as int == d.len());
        assert(buf.subrange(p + 1, p + 1 + d.len()) == w.subrange(1, 1 + d.len() as int));
        assert(w.subrange(1, 1 + d.len() as int) == d);
        assert(buf.subrange(p + 1 + d.len(), p + 1 + d.len() + wr.len()) == w.subrange(1 + d.len() as int, w.len() as int));
        assert(w.subrange(1 + d.len() as int, w.len() as int) == wr);
        assert forall|i: int| 0 <= i < rest.len() implies (#[trigger] rest[i]).len() <= 255 by {
            assert(rest[i] == ts[i + 1]);
        }
        lemma_strings_of_wire(buf, p + 1 + d.len(), rest);
        assert(seq![d] + rest == ts);
    }
}

proof fn lemma_options_of_wire(buf: Seq<u8>, p: int, os: Seq<(u16, Seq<u8>)>)
    requires
        0 <= p,
        p + options_wire(os).len() <= buf.len(),
        buf.subrange(p, p + options_wire(os).len()) == options_wire(os),
        forall|i: int| 0 <= i < os.len() ==> (#[trigger] os[i]).1.len() <= 0xffff,
    ensures
        parse_options(buf, p, p + options_wire(os).len()) == Ok::<Seq<(u16, Seq<u8>)>, DNSError>(os),
    decreases os.len(),
{
    let w = options_wire(os);
    if os.len() == 0 {
        assert(os == Seq::<(u16, Seq<u8>)>::empty());
    } else {
        let o = os[0];
        let d = o.1;
        let rest = os.drop_first();
        let wr = options_wire(rest);
        assert(w == u16_wire(o.0) + u16_wire(d.len() as u16) + d + wr);
        let head = buf.subrange(p, p + 4);
        assert(head == w.subrange(0, 4));
        lemma_u16_round_trip(o.0, Seq::<u8>::empty(), u16_wire(d.len() as u16));
        lemma_u16_round_trip(d.len() as u16, Seq::<u8>::empty(), Seq::<u8>::empty());
        assert(Seq::<u8>::empty() + u16_wire(o.0) + u16_wire(d.len() as u16) == w.subrange(0, 4));
        assert(buf[p] == w[0] && buf[p + 1] == w[1] && buf[p + 2] == w[2] && buf[p + 3] == w[3]);
        assert(Seq::<u8>::empty() + u16_wire(d.len() as u16) + Seq::<u8>::empty() == w.subrange(2, 4));
        assert(crate::network_order::be_u16(buf[p], buf[p + 1]) == o.0);
        assert(crate::network_order::be_u16(buf[p + 2], buf[p + 3]) as int == d.len());
        assert(buf.subrange(p + 4, p + 4 + d.len()) == w.subrange(4, 4 + d.len() as int));
        assert(w.subrange(4, 4 + d.len() as int) == d);
        assert(buf.subrange(p + 4 + d.len(), p + 4 + d.len() + wr.len()) == w.subrange(4 + d.len() as int, w.len() as int));
        assert(w.subrange(4 + d.len() as int, w.len() as int) == wr);
        assert forall|i: int| 0 <= i < rest.len() implies (#[trigger] rest[i]).1.len() <= 0xffff by {
            assert(rest[i] == os[i + 1]);
        }
        lemma_options_of_wire(buf, p + 4 + d.len(), rest);
        assert(seq![(o.0, d)] + rest == os);
    }
}

#[verifier::rlimit(100)]
proof fn lemma_soa_round_trip(v: RDataView, prefix: Seq<u8>, suffix: Seq<u8>)
    requires
        v is SOA,
        rdata_encodable(v),
    ensures
        parse_soa(prefix + rdata_wire(v) + suffix, prefix.len() as int)
            == Ok::<(RDataView, int), DNSError>((v, prefix.len() + rdata_wire(v).len() as int)),
{
    if let RDataView::SOA(m, r, a, b, c, d, e) = v {
        let buf = prefix + rdata_wire(v) + suffix;
        let mw = name_wire(m);
        let rw = name_wire(r);
        let tail = u32_wire(a) + u32_wire(b) + u32_wire(c) + u32_wire(d) + u32_wire(e);
        assert(rdata_wire(v) == mw + rw + tail);
        assert(buf == prefix + mw + (rw + tail + suffix));
        lemma_name_round_trip(m, prefix, rw + tail + suffix);
        let at1 = prefix + mw;
        assert(buf == at1 + rw + (tail + suffix));
        lemma_name_round_trip(r, at1, tail + suffix);
        let at2 = at1 + rw;
        assert(buf == at2 + u32_wire(a) + (u32_wire(b) + u32_wire(c) + u32_wire(d) + u32_wire(e) + suffix));
        lemma_u32_round_trip(a, at2, u32_wire(b) + u32_wire(c) + u32_wire(d) + u32_wire(e) + suffix);
        let at3 = at2 + u32_wire(a);
        assert(buf == at3 + u32_wire(b) + (u32_wire(c) + u32_wire(d) + u32_wire(e) + suffix));
        lemma_u32_round_trip(b, at3, u32_wire(c) + u32_wire(d) + u32_wire(e) + suffix);
        let at4 = at3 + u32_wire(b);
        assert(buf == at4 + u32_wire(c) + (u32_wire(d) + u32_wire(e) + suffix));
        lemma_u32_round_trip(c, at4, u32_wire(d) + u32_wire(e) + suffix);
        let at5 = at4 + u32_wire(c);
        assert(buf == at5 + u32_wire(d) + (u32_wire(e) + suffix));
        lemma_u32_round_trip(d, at5, u32_wire(e) + suffix);
        let at6 = at5 + u32_wire(d);
        assert(buf == at6 + u32_wire(e) + suffix);
        lemma_u32_round_trip(e, at6, suffix);
    }
}

/// Record data of every form, written then read back as the data of a record
/// of its type filling exactly its octets, is the same data.
#[verifier::rlimit(60)]
pub proof fn lemma_rdata_round_trip(v: RDataView, t: u16, prefix: Seq<u8>, suffix: Seq<u8>)
    requires
        rdata_encodable(v),
        rdata_matches_type(t, v),
    ensures
        parse_rdata(prefix + rdata_wire(v) + suffix, t, prefix.len() as int,
            prefix.len() + rdata_wire(v).len() as int) == Ok::<RDataView, DNSError>(v),
{
    reveal(parse_rdata);
    let w = rdata_wire(v);
    let buf = prefix + w + suffix;
    let p = prefix.len() as int;
    assert(buf.subrange(p, p + w.len()) == w);
    match v {
        RDataView::A(a) => {
            lemma_u32_round_trip(a, prefix, suffix);
        },
        RDataView::NS(n) => {
            lemma_name_round_trip(n, prefix, suffix);
        },
        RDataView::CNAME(n) => {
            lemma_name_round_trip(n, prefix, suffix);
        },
        RDataView::PTR(n) => {
            lemma_name_round_trip(n, prefix, suffix);
        },
        RDataView::SOA(..) => {
            lemma_soa_round_trip(v, prefix, suffix);
        },
        RDataView::HINFO(c, o) => {
            let cw = seq![c.len() as u8] + c;
            let ow = seq![o.len() as u8] + o;
            assert(buf == prefix + cw + (ow + suffix));
            lemma_character_string_round_trip(c, prefix, ow + suffix);
            assert(buf == (prefix + cw) + ow + suffix);
            lemma_character_string_round_trip(o, prefix + cw, suffix);
        },
        RDataView::MX(pref, n) => {
            assert(buf == prefix + u16_wire(pref) + (name_wire(n) + suffix));
            lemma_u16_round_trip(pref, prefix, name_wire(n) + suffix);
            assert(buf == (prefix + u16_wire(pref)) + name_wire(n) + suffix);
            lemma_name_round_trip(n, prefix + u16_wire(pref), suffix);
        },
        RDataView::TXT(ts) => {
            lemma_strings_of_wire(buf, p, ts);
        },
        RDataView::AAAA(a) => {},
        RDataView::OPT(os) => {
            lemma_options_of_wire(buf, p, os);
        },
        RDataView::Unknown(u) => {},
    }
}

fn bytes_of(buffer: &[u8], start: usize, end: usize) -> (r: Vec<u8>)
    requires
        start <= end <= buffer@.len(),
    ensures
        r@ == buffer@.subrange(start as int, end as int),
{
    vstd::slice::slice_to_vec(vstd::slice::slice_subrange(buffer, start, end))
}

/// Reads the character strings from `start` up to `end`.
fn strings_from(buffer: &[u8], start: usize, end: usize) -> (r: DNSResult<Vec<CharacterString>>)
    requires
        start <= end <= buffer@.len(),
    ensures
        match r {
            Ok(v) => parse_strings(buffer@, start as int, end as int) == Ok::<Seq<Seq<u8>>, DNSError>(strings_view(v@)),
            Err(e) => parse_strings(buffer@, start as int, end as int) == Err::<Seq<Seq<u8>>, DNSError>(e),
        },
{
    let ghost buf = buffer@;
    let mut v: Vec<CharacterString> = Vec::new();
    let mut p = start;
    while p < end
        invariant
            buf == buffer@,
            start <= p <= end <= buf.len(),
            match parse_strings(buf, p as int, end as int) {
                Ok(rest) => parse_strings(buf, start as int, end as int)
                    == Ok::<Seq<Seq<u8>>, DNSError>(strings_view(v@) + rest),
                Err(e) => parse_strings(buf, start as int, end as int) == Err::<Seq<Seq<u8>>, DNSError>(e),
            },
        decreases end - p,
    {
        let n = buffer[p] as usize;
        if buffer.len() - p - 1 < n {
            return Err(DNSError::ShortRead);
        }
        let next = p + 1 + n;
        if next > end {
            return Err(DNSError::BadRdLength);
        }
        let cs = CharacterString { data: bytes_of(buffer, p + 1, next) };
        proof {
            let d = buf.subrange(p + 1, next as int);
            assert(strings_view(v@.push(cs)) == strings_view(v@).push(d));
            match parse_strings(buf, next as int, end as int) {
                Ok(rest) => {
                    assert(strings_view(v@) + (seq![d] + rest) == strings_view(v@).push(d) + rest);
                },
                Err(_) => {},
            }
        }
        v.push(cs);
        p = next;
    }
    assert(strings_view(v@) + Seq::<Seq<u8>>::empty() == strings_view(v@));
    Ok(v)
}

/// Reads the options from `start` up to `end`.
fn options_from(buffer: &[u8], start: usize, end: usize) -> (r: DNSResult<Vec<OptData>>)
    requires
        start <= end <= buffer@.len(),
    ensures
        match r {
            Ok(v) => parse_options(buffer@, start as int, end as int) == Ok::<Seq<(u16, Seq<u8>)>, DNSError>(options_view(v@)),
            Err(e) => parse_options(buffer@, start as int, end as int) == Err::<Seq<(u16, Seq<u8>)>, DNSError>(e),
        },
{
    let ghost buf = buffer@;
    let mut v: Vec<OptData> = Vec::new();
    let mut p = start;
    while p < end
        invariant
            buf == buffer@,
            start <= p <= end <= buf.len(),
            match parse_options(buf, p as int, end as int) {
                Ok(rest) => parse_options(buf, start as int, end as int)
                    == Ok::<Seq<(u16, Seq<u8>)>, DNSError>(options_view(v@) + rest),
                Err(e) => parse_options(buf, start as int, end as int) == Err::<Seq<(u16, Seq<u8>)>, DNSError>(e),
            },
        decreases end - p,
    {
        if buffer.len() - p < 4 {
            return Err(DNSError::ShortRead);
        }
        let (option_code, at2) = read_u16(buffer, p)?;
        let (len, at4) = read_u16(buffer, at2)?;
        if buffer.len() - at4 < len as usize {
            return Err(DNSError::ShortRead);
        }
        let next = at4 + len as usize;
        if next > end {
            return Err(DNSError::BadRdLength);
        }
        let o = OptData { option_code, option_data: bytes_of(buffer, at4, next) };
        proof {
            let d = (option_code, buf.subrange(p + 4, next as int));
            assert(options_view(v@.push(o)) == options_view(v@).push(d));
            match parse_options(buf, next as int, end as int) {
                Ok(rest) => {
                    assert(options_view(v@) + (seq![d] + rest) == options_view(v@).push(d) + rest);
                },
                Err(_) => {},
            }
        }
        v.push(o);
        p = next;
    }
    assert(options_view(v@) + Seq::<(u16, Seq<u8>)>::empty() == options_view(v@));
    Ok(v)
}

fn name_at(buffer: &[u8], pos: usize) -> (r: DNSResult<(DomainName, usize)>)
    ensures
        match r {
            Ok((n, end)) => parse_name(buffer@, pos as int) == Ok::<(NameView, int), DNSError>((n@, end as int)),
            Err(e) => parse_name(buffer@, pos as int) == Err::<(NameView, int), DNSError>(e),
        },
{
    let mut n = DomainName { labels: Vec::new() };
    let end = n.from_network_bytes(buffer, pos)?;
    Ok((n, end))
}

fn string_at(buffer: &[u8], pos: usize) -> (r: DNSResult<(CharacterString, usize)>)
    ensures
        match r {
            Ok((c, end)) => parse_character_string(buffer@, pos as int) == Ok::<(Seq<u8>, int), DNSError>((c@, end as int)),
            Err(e) => parse_character_string(buffer@, pos as int) == Err::<(Seq<u8>, int), DNSError>(e),
        },
{
    let mut c = CharacterString { data: Vec::new() };
    let end = c.from_network_bytes(buffer, pos)?;
    Ok((c, end))
}

fn fitted(v: RData, p: usize, end: usize) -> (r: DNSResult<RData>)
    ensures
        r matches Ok(x) ==> x@ == v@,
        fit(Ok((v@, p as int)), end as int) matches Ok(_) <==> r is Ok,
        r matches Err(e) ==> fit(Ok((v@, p as int)), end as int) == Err::<RDataView, DNSError>(e),
{
    if p == end { Ok(v) } else { Err(DNSError::BadRdLength) }
}

impl RData {
    /// Reads the data of a record of type `t` from the octets `start..end` of
    /// the message `buffer`.
    pub fn from_network_bytes(buffer: &[u8], t: u16, start: usize, end: usize) -> (r: DNSResult<RData>)
        requires
            start <= end <= buffer@.len(),
        ensures
            match r {
                Ok(v) => parse_rdata(buffer@, t, start as int, end as int) == Ok::<RDataView, DNSError>(v@),
                Err(e) => parse_rdata(buffer@, t, start as int, end as int) == Err::<RDataView, DNSError>(e),
            },
    {
        reveal(parse_rdata);
        if t == TYPE_A {
            let (a, p) = read_u32(buffer, start)?;
            fitted(RData::A(a), p, end)
        } else if t == TYPE_NS || t == TYPE_CNAME || t == TYPE_PTR {
            let (n, p) = name_at(buffer, start)?;
            let v = if t == TYPE_NS {
                RData::NS(n)
            } else if t == TYPE_CNAME {
                RData::CNAME(n)
            } else {
                RData::PTR(n)
            };
            fitted(v, p, end)
        } else if t == TYPE_SOA {
            let (mname, p) = name_at(buffer, start)?;
            let (rname, p) = name_at(buffer, p)?;
            let (serial, p) = read_u32(buffer, p)?;
            let (refresh, p) = read_u32(buffer, p)?;
            let (retry, p) = read_u32(buffer, p)?;
            let (expire, p) = read_u32(buffer, p)?;
            let (minimum, p) = read_u32(buffer, p)?;
            fitted(RData::SOA(SOA { mname, rname, serial, refresh, retry, expire, minimum }), p, end)
        } else if t == TYPE_HINFO {
            let (cpu, p) = string_at(buffer, start)?;
            let (os, p) = string_at(buffer, p)?;
            fitted(RData::HINFO(HINFO { cpu, os }), p, end)
        } else if t == TYPE_MX {
            let (preference, p) = read_u16(buffer, start)?;
            let (exchange, p) = name_at(buffer, p)?;
            fitted(RData::MX(MX { preference, exchange }), p, end)
        } else if t == TYPE_TXT {
            if start == end {
                return Err(DNSError::BadRdLength);
            }
            let v = strings_from(buffer, start, end)?;
            Ok(RData::TXT(v))
        } else if t == TYPE_AAAA {
            if buffer.len() - start < 16 {
                return Err(DNSError::ShortRead);
            }
            fitted(RData::AAAA(bytes_of(buffer, start, start + 16)), start + 16, end)
        } else if t == TYPE_OPT {
            let v = options_from(buffer, start, end)?;
            Ok(RData::OPT(v))
        } else {
            Ok(RData::Unknown(bytes_of(buffer, start, end)))
        }
    }
}

} // verus!
