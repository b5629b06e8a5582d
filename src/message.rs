//! Whole messages: the generic wire message, the query builder and the
//! decoded response.
use vstd::prelude::*;
use vstd::string::StringSliceAdditionalSpecFns;
use crate::enums::{OpCode, PacketType, QClass, QType, ResponseCode};
use crate::name::name_from_text;
use crate::error::{DNSError, DNSResult};
use crate::header::{DNSPacketFlags, DNSPacketHeader};
use crate::network_order::{FromNetworkOrder, ToNetworkOrder};
use crate::header::lemma_header_round_trip;
use crate::network_order::seq_wire;
use crate::question::{DNSQuestion, QuestionView, parse_question, question_wire, lemma_question_round_trip};
use crate::record::{DNSResourceRecord, OPT, RecordView, parse_record, record_wire, lemma_record_round_trip};

verus! {

/// The largest UDP payload without EDNS0.
pub const MAX_DNS_PACKET_SIZE: usize = 512;

/// A header followed by one payload.
#[derive(Debug, Clone, PartialEq, Eq)]
pub struct DNSPacket<T> {
    pub header: DNSPacketHeader,
    pub data: T,
}

impl<T: ToNetworkOrder> ToNetworkOrder for DNSPacket<T> {
    open spec fn encodable(&self) -> bool {
        self.header.encodable() && self.data.encodable()
    }

    open spec fn wire(&self) -> Seq<u8> {
        self.header.wire() + self.data.wire()
    }

    fn to_network_bytes(&self, buffer: &mut Vec<u8>) -> (r: usize) {
        let length = self.header.to_network_bytes(buffer);
        length + self.data.to_network_bytes(buffer)
    }
}

impl<T: View> View for DNSPacket<T> {
    type V = (DNSPacketHeader, T::V);

    open spec fn view(&self) -> (DNSPacketHeader, T::V) {
        (self.header, self.data@)
    }
}

/// A packet is read as its header, then its payload.
impl<T: FromNetworkOrder> FromNetworkOrder for DNSPacket<T> {
    open spec fn parse(buf: Seq<u8>, pos: int) -> Result<((DNSPacketHeader, T::V), int), DNSError> {
        match DNSPacketHeader::parse(buf, pos) {
            Err(e) => Err(e),
            Ok((header, at1)) => match T::parse(buf, at1) {
                Err(e) => Err(e),
                Ok((data, at2)) => Ok(((header, data), at2)),
            },
        }
    }

    fn from_network_bytes(&mut self, buffer: &[u8], pos: usize) -> (r: DNSResult<usize>) {
        let p = self.header.from_network_bytes(buffer, pos)?;
        self.data.from_network_bytes(buffer, p)
    }
}

impl DNSPacketHeader {
    /// The flags of an outgoing query: a standard query with recursion desired,
    /// every other flag cleared and no error.
    pub open spec fn query_flags() -> DNSPacketFlags {
        DNSPacketFlags {
            packet_type: PacketType::Query,
            op_code: OpCode::Query,
            authorative_answer: false,
            truncated: false,
            recursion_desired: true,
            recursion_available: false,
            z: false,
            authentic_data: false,
            checking_disabled: false,
            response_code: ResponseCode::NoError,
        }
    }

    /// The header of a query with identifier `id` and empty sections.
    pub fn query(id: u16) -> (r: DNSPacketHeader)
        ensures
            r == (DNSPacketHeader {
                id,
                flags: Self::query_flags(),
                qd_count: 0,
                an_count: 0,
                ns_count: 0,
                ar_count: 0,
            }),
    {
        let mut header = DNSPacketHeader::default();
        header.id = id;
        header.flags.packet_type = PacketType::Query;
        header.flags.op_code = OpCode::Query;
        header.flags.recursion_desired = true;
        header
    }
}

/// Relies on `rand::random`: a 16-bit value from the thread-local generator.
/// Nothing is assumed of the value.
#[verifier::external_body]
fn random_id() -> u16 {
    rand::random::<u16>()
}

/// A message: a header and four counted sections.
#[derive(Debug, Clone, PartialEq, Eq)]
pub struct DNSMessage {
    pub header: DNSPacketHeader,
    pub questions: Vec<DNSQuestion>,
    pub answers: Vec<DNSResourceRecord>,
    pub authorities: Vec<DNSResourceRecord>,
    pub additionals: Vec<DNSResourceRecord>,
}

/// What a message holds.
pub struct MessageView {
    pub header: DNSPacketHeader,
    pub questions: Seq<QuestionView>,
    pub answers: Seq<RecordView>,
    pub authorities: Seq<RecordView>,
    pub additionals: Seq<RecordView>,
}

pub open spec fn questions_view(v: Seq<DNSQuestion>) -> Seq<QuestionView> {
    v.map_values(|q: DNSQuestion| q@)
}

pub open spec fn records_view(v: Seq<DNSResourceRecord>) -> Seq<RecordView> {
    v.map_values(|r: DNSResourceRecord| r@)
}

impl View for DNSMessage {
    type V = MessageView;

    open spec fn view(&self) -> MessageView {
        MessageView {
            header: self.header,
            questions: questions_view(self.questions@),
            answers: records_view(self.answers@),
            authorities: records_view(self.authorities@),
            additionals: records_view(self.additionals@),
        }
    }
}

/// `n` questions one after the other from `p`.
pub open spec fn parse_questions(buf: Seq<u8>, p: int, n: int) -> Result<(Seq<QuestionView>, int), DNSError>
    decreases n,
{
    if n <= 0 {
        Ok((seq![], p))
    } else {
        match parse_question(buf, p) {
            Err(e) => Err(e),
            Ok((q, at1)) => match parse_questions(buf, at1, n - 1) {
                Err(e) => Err(e),
                Ok((qs, end)) => Ok((seq![q] + qs, end)),
            },
        }
    }
}

/// `n` records one after the other from `p`.
pub open spec fn parse_records(buf: Seq<u8>, p: int, n: int) -> Result<(Seq<RecordView>, int), DNSError>
    decreases n,
{
    if n <= 0 {
        Ok((seq![], p))
    } else {
        match parse_record(buf, p) {
            Err(e) => Err(e),
            Ok((r, at1)) => match parse_records(buf, at1, n - 1) {
                Err(e) => Err(e),
                Ok((rs, end)) => Ok((seq![r] + rs, end)),
            },
        }
    }
}

/// The message at `pos`: the header, then as many questions, answers,
/// authorities and additionals as its counts say.
pub open spec fn parse_message(buf: Seq<u8>, pos: int) -> Result<(MessageView, int), DNSError> {
    match DNSPacketHeader::parse(buf, pos) {
        Err(e) => Err(e),
        Ok((header, at1)) => match parse_questions(buf, at1, header.qd_count as int) {
            Err(e) => Err(e),
            Ok((questions, at2)) => match parse_records(buf, at2, header.an_count as int) {
                Err(e) => Err(e),
                Ok((answers, at3)) => match parse_records(buf, at3, header.ns_count as int) {
                    Err(e) => Err(e),
                    Ok((authorities, at4)) => match parse_records(buf, at4, header.ar_count as int) {
                        Err(e) => Err(e),
                        Ok((additionals, at5)) => Ok((
                            MessageView { header, questions, answers, authorities, additionals },
                            at5,
                        )),
                    },
                },
            },
        },
    }
}

fn questions_from(buffer: &[u8], pos: usize, n: u16) -> (r: DNSResult<(Vec<DNSQuestion>, usize)>)
    ensures
        match r {
            Ok((v, end)) => parse_questions(buffer@, pos as int, n as int)
                == Ok::<(Seq<QuestionView>, int), DNSError>((questions_view(v@), end as int)),
            Err(e) => parse_questions(buffer@, pos as int, n as int) == Err::<(Seq<QuestionView>, int), DNSError>(e),
        },
{
    let ghost buf = buffer@;
    let mut v: Vec<DNSQuestion> = Vec::new();
    let mut p = pos;
    let mut i: u16 = 0;
    while i < n
        invariant
            buf == buffer@,
            i <= n,
            match parse_questions(buf, p as int, (n - i) as int) {
                Ok((rest, e)) => parse_questions(buf, pos as int, n as int)
                    == Ok::<(Seq<QuestionView>, int), DNSError>((questions_view(v@) + rest, e)),
                Err(e) => parse_questions(buf, pos as int, n as int) == Err::<(Seq<QuestionView>, int), DNSError>(e),
            },
        decreases n - i,
    {
        let mut q = DNSQuestion {
            name: crate::name::DomainName { labels: Vec::new() },
            qtype: crate::enums::QType::default(),
            class: crate::enums::QClass::default(),
        };
        let next = q.from_network_bytes(buffer, p)?;
        proof {
            assert(questions_view(v@.push(q)) == questions_view(v@).push(q@));
            match parse_questions(buf, next as int, (n - i - 1) as int) {
                Ok((rest, _)) => {
                    assert(questions_view(v@) + (seq![q@] + rest) == questions_view(v@).push(q@) + rest);
                },
                Err(_) => {},
            }
        }
        v.push(q);
        p = next;
        i += 1;
    }
    assert(questions_view(v@) + Seq::<QuestionView>::empty() == questions_view(v@));
    Ok((v, p))
}

fn records_from(buffer: &[u8], pos: usize, n: u16) -> (r: DNSResult<(Vec<DNSResourceRecord>, usize)>)
    ensures
        match r {
            Ok((v, end)) => parse_records(buffer@, pos as int, n as int)
                == Ok::<(Seq<RecordView>, int), DNSError>((records_view(v@), end as int)),
            Err(e) => parse_records(buffer@, pos as int, n as int) == Err::<(Seq<RecordView>, int), DNSError>(e),
        },
{
    let ghost buf = buffer@;
    let mut v: Vec<DNSResourceRecord> = Vec::new();
    let mut p = pos;
    let mut i: u16 = 0;
    while i < n
        invariant
            buf == buffer@,
            i <= n,
            match parse_records(buf, p as int, (n - i) as int) {
                Ok((rest, e)) => parse_records(buf, pos as int, n as int)
                    == Ok::<(Seq<RecordView>, int), DNSError>((records_view(v@) + rest, e)),
                Err(e) => parse_records(buf, pos as int, n as int) == Err::<(Seq<RecordView>, int), DNSError>(e),
            },
        decreases n - i,
    {
        let mut rr = DNSResourceRecord {
            name: crate::name::DomainName { labels: Vec::new() },
            r_type: 0,
            class: 0,
            ttl: 0,
            rd_data: crate::rdata::RData::Unknown(Vec::new()),
        };
        let next = rr.from_network_bytes(buffer, p)?;
        proof {
            assert(records_view(v@.push(rr)) == records_view(v@).push(rr@));
            match parse_records(buf, next as int, (n - i - 1) as int) {
                Ok((rest, _)) => {
                    assert(records_view(v@) + (seq![rr@] + rest) == records_view(v@).push(rr@) + rest);
                },
                Err(_) => {},
            }
        }
        v.push(rr);
        p = next;
        i += 1;
    }
    assert(records_view(v@) + Seq::<RecordView>::empty() == records_view(v@));
    Ok((v, p))
}

impl DNSMessage {
    /// A query message with identifier `id` and no entries.
    pub fn with_id(id: u16) -> (r: DNSMessage)
        ensures
            r.header == DNSPacketHeader::query_header_spec(id),
            r@.questions.len() == 0,
            r@.answers.len() == 0,
            r@.authorities.len() == 0,
            r@.additionals.len() == 0,
    {
        DNSMessage {
            header: DNSPacketHeader::query(id),
            questions: Vec::new(),
            answers: Vec::new(),
            authorities: Vec::new(),
            additionals: Vec::new(),
        }
    }

    /// A query message with a random identifier and no entries.
    pub fn default() -> (r: DNSMessage)
        ensures
            r.header == DNSPacketHeader::query_header_spec(r.header.id),
            r@.questions.len() == 0,
            r@.answers.len() == 0,
            r@.authorities.len() == 0,
            r@.additionals.len() == 0,
    {
        DNSMessage::with_id(random_id())
    }

    /// Adds a question and counts it in the header.
    pub fn push_question(&mut self, question: DNSQuestion)
        requires
            old(self).header.qd_count < u16::MAX,
        ensures
            final(self)@.questions == old(self)@.questions.push(question@),
            final(self).header == (DNSPacketHeader { qd_count: (old(self).header.qd_count + 1) as u16, ..old(self).header }),
            final(self)@.answers == old(self)@.answers,
            final(self)@.authorities == old(self)@.authorities,
            final(self)@.additionals == old(self)@.additionals,
    {
        self.questions.push(question);
        self.header.qd_count += 1;
        assert(questions_view(self.questions@) == questions_view(old(self).questions@).push(question@));
    }
}

impl DNSPacketHeader {
    pub open spec fn query_header_spec(id: u16) -> DNSPacketHeader {
        DNSPacketHeader { id, flags: Self::query_flags(), qd_count: 0, an_count: 0, ns_count: 0, ar_count: 0 }
    }
}

impl ToNetworkOrder for DNSMessage {
    /// The counts equal the section lengths and every entry can be written.
    open spec fn encodable(&self) -> bool {
        &&& self.header.encodable()
        &&& self.header.qd_count == self.questions@.len()
        &&& self.header.an_count == self.answers@.len()
        &&& self.header.ns_count == self.authorities@.len()
        &&& self.header.ar_count == self.additionals@.len()
        &&& self.questions.encodable()
        &&& self.answers.encodable()
        &&& self.authorities.encodable()
        &&& self.additionals.encodable()
    }

    open spec fn wire(&self) -> Seq<u8> {
        self.header.wire() + self.questions.wire() + self.answers.wire() + self.authorities.wire()
            + self.additionals.wire()
    }

    fn to_network_bytes(&self, buffer: &mut Vec<u8>) -> (r: usize) {
        let mut length = self.header.to_network_bytes(buffer);
        length += self.questions.to_network_bytes(buffer);
        length += self.answers.to_network_bytes(buffer);
        length += self.authorities.to_network_bytes(buffer);
        length += self.additionals.to_network_bytes(buffer);
        length
    }
}

impl FromNetworkOrder for DNSMessage {
    open spec fn parse(buf: Seq<u8>, pos: int) -> Result<(MessageView, int), DNSError> {
        parse_message(buf, pos)
    }

    fn from_network_bytes(&mut self, buffer: &[u8], pos: usize) -> (r: DNSResult<usize>) {
        let mut header = DNSPacketHeader::default();
        let p = header.from_network_bytes(buffer, pos)?;
        let (questions, p) = questions_from(buffer, p, header.qd_count)?;
        let (answers, p) = records_from(buffer, p, header.an_count)?;
        let (authorities, p) = records_from(buffer, p, header.ns_count)?;
        let (additionals, p) = records_from(buffer, p, header.ar_count)?;
        *self = DNSMessage { header, questions, answers, authorities, additionals };
        Ok(p)
    }
}

/// Every decoded message has section lengths equal to its header counts.
pub proof fn lemma_decoded_counts(buf: Seq<u8>, pos: int)
    requires
        parse_message(buf, pos) is Ok,
    ensures
        parse_message(buf, pos) matches Ok((m, _)) && {
            &&& m.questions.len() == m.header.qd_count
            &&& m.answers.len() == m.header.an_count
            &&& m.authorities.len() == m.header.ns_count
            &&& m.additionals.len() == m.header.ar_count
        },
{
    let (header, at1) = DNSPacketHeader::parse(buf, pos)->Ok_0;
    lemma_questions_len(buf, at1, header.qd_count as int);
    let (_, at2) = parse_questions(buf, at1, header.qd_count as int)->Ok_0;
    lemma_records_len(buf, at2, header.an_count as int);
    let (_, at3) = parse_records(buf, at2, header.an_count as int)->Ok_0;
    lemma_records_len(buf, at3, header.ns_count as int);
    let (_, at4) = parse_records(buf, at3, header.ns_count as int)->Ok_0;
    lemma_records_len(buf, at4, header.ar_count as int);
}

proof fn lemma_questions_len(buf: Seq<u8>, p: int, n: int)
    requires
        n >= 0,
    ensures
        parse_questions(buf, p, n) matches Ok((qs, _)) ==> qs.len() == n,
    decreases n,
{
    if n > 0 {
        if let Ok((_, at1)) = parse_question(buf, p) {
            lemma_questions_len(buf, at1, n - 1);
        }
    }
}

proof fn lemma_records_len(buf: Seq<u8>, p: int, n: int)
    requires
        n >= 0,
    ensures
        parse_records(buf, p, n) matches Ok((rs, _)) ==> rs.len() == n,
    decreases n,
{
    if n > 0 {
        if let Ok((_, at1)) = parse_record(buf, p) {
            lemma_records_len(buf, at1, n - 1);
        }
    }
}

proof fn lemma_questions_round_trip(qs: Seq<DNSQuestion>, prefix: Seq<u8>, suffix: Seq<u8>)
    requires
        forall|i: int| 0 <= i < qs.len() ==> (#[trigger] qs[i]).encodable(),
    ensures
        parse_questions(prefix + seq_wire(qs) + suffix, prefix.len() as int, qs.len() as int)
            == Ok::<(Seq<QuestionView>, int), DNSError>((questions_view(qs), prefix.len() + seq_wire(qs).len() as int)),
    decreases qs.len(),
{
    if qs.len() == 0 {
        assert(questions_view(qs) == Seq::<QuestionView>::empty());
        assert(prefix + seq_wire(qs) + suffix == prefix + suffix);
    } else {
        let q = qs[0];
        let rest = qs.drop_first();
        let w = seq_wire(rest);
        assert(seq_wire(qs) == q.wire() + w);
        assert(prefix + seq_wire(qs) + suffix == prefix + question_wire(q@) + (w + suffix));
        lemma_question_round_trip(q@, prefix, w + suffix);
        assert(prefix + seq_wire(qs) + suffix == (prefix + q.wire()) + w + suffix);
        assert forall|i: int| 0 <= i < rest.len() implies (#[trigger] rest[i]).encodable() by {
            assert(rest[i] == qs[i + 1]);
        }
        lemma_questions_round_trip(rest, prefix + q.wire(), suffix);
        assert(questions_view(qs) == seq![q@] + questions_view(rest));
    }
}

proof fn lemma_records_round_trip(rs: Seq<DNSResourceRecord>, prefix: Seq<u8>, suffix: Seq<u8>)
    requires
        forall|i: int| 0 <= i < rs.len() ==> (#[trigger] rs[i]).encodable(),
    ensures
        parse_records(prefix + seq_wire(rs) + suffix, prefix.len() as int, rs.len() as int)
            == Ok::<(Seq<RecordView>, int), DNSError>((records_view(rs), prefix.len() + seq_wire(rs).len() as int)),
    decreases rs.len(),
{
    if rs.len() == 0 {
        assert(records_view(rs) == Seq::<RecordView>::empty());
        assert(prefix + seq_wire(rs) + suffix == prefix + suffix);
    } else {
        let r = rs[0];
        let rest = rs.drop_first();
        let w = seq_wire(rest);
        assert(seq_wire(rs) == r.wire() + w);
        assert(prefix + seq_wire(rs) + suffix == prefix + record_wire(r@) + (w + suffix));
        lemma_record_round_trip(r@, prefix, w + suffix);
        assert(prefix + seq_wire(rs) + suffix == (prefix + r.wire()) + w + suffix);
        assert forall|i: int| 0 <= i < rest.len() implies (#[trigger] rest[i]).encodable() by {
            assert(rest[i] == rs[i + 1]);
        }
        lemma_records_round_trip(rest, prefix + r.wire(), suffix);
        assert(records_view(rs) == seq![r@] + records_view(rest));
    }
}

proof fn lemma_sections_round_trip(m: DNSMessage, pre: Seq<u8>, suffix: Seq<u8>)
    requires
        m.encodable(),
    ensures
        ({
            let qw = m.questions.wire();
            let aw = m.answers.wire();
            let nw = m.authorities.wire();
            let dw = m.additionals.wire();
            let buf = pre + (qw + aw + nw + dw) + suffix;
            let at1 = pre.len() as int;
            let at2 = at1 + qw.len();
            let at3 = at2 + aw.len();
            let at4 = at3 + nw.len();
            &&& parse_questions(buf, at1, m.header.qd_count as int)
                == Ok::<(Seq<QuestionView>, int), DNSError>((m@.questions, at2))
            &&& parse_records(buf, at2, m.header.an_count as int)
                == Ok::<(Seq<RecordView>, int), DNSError>((m@.answers, at3))
            &&& parse_records(buf, at3, m.header.ns_count as int)
                == Ok::<(Seq<RecordView>, int), DNSError>((m@.authorities, at4))
            &&& parse_records(buf, at4, m.header.ar_count as int)
                == Ok::<(Seq<RecordView>, int), DNSError>((m@.additionals, at4 + dw.len()))
        }),
{
    let qw = m.questions.wire();
    let aw = m.answers.wire();
    let nw = m.authorities.wire();
    let dw = m.additionals.wire();
    let buf = pre + (qw + aw + nw + dw) + suffix;
    assert(buf == pre + seq_wire(m.questions@) + (aw + nw + dw + suffix));
    lemma_questions_round_trip(m.questions@, pre, aw + nw + dw + suffix);
    let p2 = pre + qw;
    assert(buf == p2 + seq_wire(m.answers@) + (nw + dw + suffix));
    lemma_records_round_trip(m.answers@, p2, nw + dw + suffix);
    let p3 = p2 + aw;
    assert(buf == p3 + seq_wire(m.authorities@) + (dw + suffix));
    lemma_records_round_trip(m.authorities@, p3, dw + suffix);
    let p4 = p3 + nw;
    assert(buf == p4 + seq_wire(m.additionals@) + suffix);
    lemma_records_round_trip(m.additionals@, p4, suffix);
}

/// A message that can be written reads back as the same message, its counts
/// equal to its section lengths.
#[verifier::rlimit(100)]
pub proof fn lemma_message_round_trip(m: DNSMessage, prefix: Seq<u8>, suffix: Seq<u8>)
    requires
        m.encodable(),
    ensures
        parse_message(prefix + m.wire() + suffix, prefix.len() as int)
            == Ok::<(MessageView, int), DNSError>((m@, prefix.len() + m.wire().len() as int)),
{
    let hw = m.header.wire();
    let body = m.questions.wire() + m.answers.wire() + m.authorities.wire() + m.additionals.wire();
    let buf = prefix + m.wire() + suffix;
    assert(buf == prefix + hw + (body + suffix));
    lemma_header_round_trip(m.header, prefix, body + suffix);
    assert(buf == (prefix + hw) + body + suffix);
    lemma_sections_round_trip(m, prefix + hw, suffix);
}

/// An outgoing query: a header, its questions and an optional OPT pseudo-record,
/// which goes to the additional section.
#[derive(Debug, Clone, PartialEq, Eq)]
pub struct DNSQuery {
    pub header: DNSPacketHeader,
    pub questions: Vec<DNSQuestion>,
    pub opt: Option<OPT>,
}

impl DNSQuery {
    /// A query with identifier `id`, recursion desired, no question and no OPT.
    pub fn with_id(id: u16) -> (r: DNSQuery)
        ensures
            r.header == DNSPacketHeader::query_header_spec(id),
            r.questions@.len() == 0,
            r.opt is None,
    {
        DNSQuery { header: DNSPacketHeader::query(id), questions: Vec::new(), opt: None }
    }

    /// A query with a random identifier, recursion desired, no question and no OPT.
    pub fn default() -> (r: DNSQuery)
        ensures
            r.header == DNSPacketHeader::query_header_spec(r.header.id),
            r.questions@.len() == 0,
            r.opt is None,
    {
        DNSQuery::with_id(random_id())
    }

    /// Adds a question and counts it in the header.
    pub fn push_question(&mut self, question: DNSQuestion)
        requires
            old(self).header.qd_count < u16::MAX,
        ensures
            final(self).questions@ == old(self).questions@.push(question),
            final(self).header == (DNSPacketHeader { qd_count: (old(self).header.qd_count + 1) as u16, ..old(self).header }),
            final(self).opt == old(self).opt,
    {
        self.questions.push(question);
        self.header.qd_count += 1;
    }

    /// Sets the OPT pseudo-record, counting it in the additional section the
    /// first time; a query holds at most one.
    pub fn set_opt(&mut self, opt: OPT)
        requires
            old(self).opt is None ==> old(self).header.ar_count < u16::MAX,
        ensures
            final(self).opt == Some(opt),
            final(self).questions == old(self).questions,
            final(self).header == (DNSPacketHeader {
                ar_count: if old(self).opt is None { (old(self).header.ar_count + 1) as u16 } else { old(self).header.ar_count },
                ..old(self).header
            }),
    {
        if self.opt.is_none() {
            self.header.ar_count += 1;
        }
        self.opt = Some(opt);
    }
}

impl ToNetworkOrder for DNSQuery {
    open spec fn encodable(&self) -> bool {
        self.header.encodable() && self.questions.encodable() && self.opt.encodable()
    }

    /// The header, the questions, then the OPT record when there is one.
    open spec fn wire(&self) -> Seq<u8> {
        self.header.wire() + self.questions.wire() + self.opt.wire()
    }

    fn to_network_bytes(&self, buffer: &mut Vec<u8>) -> (r: usize) {
        let mut length = self.header.to_network_bytes(buffer);
        length += self.questions.to_network_bytes(buffer);
        length += self.opt.to_network_bytes(buffer);
        length
    }
}

/// Preparation of single-question query packets.
pub struct DNSRequest;

impl DNSRequest {
    /// Makes `packet` a query about `domain` of type `qtype` in class IN, with
    /// identifier `id`: a standard query, recursion desired, AA, TC and RA
    /// cleared, one question and no record. On error `packet` is left as it was.
    pub fn init_request_with_id(domain: &str, packet: &mut DNSPacket<DNSQuestion>, qtype: QType, id: u16)
        -> (r: DNSResult<()>)
        ensures
            match name_from_text(domain.spec_bytes()) {
                Ok(n) => r is Ok && final(packet).data@ == (QuestionView { name: n, qtype, class: QClass::IN })
                    && final(packet).header == (DNSPacketHeader {
                        id,
                        flags: DNSPacketFlags {
                            packet_type: PacketType::Query,
                            op_code: OpCode::Query,
                            authorative_answer: false,
                            truncated: false,
                            recursion_desired: true,
                            recursion_available: false,
                            ..old(packet).header.flags
                        },
                        qd_count: 1,
                        an_count: 0,
                        ns_count: 0,
                        ar_count: 0,
                    }),
                Err(e) => r == Err::<(), DNSError>(e) && *final(packet) == *old(packet),
            },
    {
        let question = DNSQuestion::new(domain, qtype, Some(QClass::IN))?;
        packet.header.id = id;
        packet.header.flags.packet_type = PacketType::Query;
        packet.header.flags.op_code = OpCode::Query;
        packet.header.flags.authorative_answer = false;
        packet.header.flags.truncated = false;
        packet.header.flags.recursion_desired = true;
        packet.header.flags.recursion_available = false;
        packet.header.qd_count = 1;
        packet.header.an_count = 0;
        packet.header.ns_count = 0;
        packet.header.ar_count = 0;
        packet.data = question;
        Ok(())
    }

    /// As `init_request_with_id`, with a random identifier.
    pub fn init_request(domain: &str, packet: &mut DNSPacket<DNSQuestion>, qtype: QType) -> (r: DNSResult<()>)
        ensures
            match name_from_text(domain.spec_bytes()) {
                Ok(n) => r is Ok && final(packet).data@ == (QuestionView { name: n, qtype, class: QClass::IN })
                    && final(packet).header == (DNSPacketHeader {
                        id: final(packet).header.id,
                        flags: DNSPacketFlags {
                            packet_type: PacketType::Query,
                            op_code: OpCode::Query,
                            authorative_answer: false,
                            truncated: false,
                            recursion_desired: true,
                            recursion_available: false,
                            ..old(packet).header.flags
                        },
                        qd_count: 1,
                        an_count: 0,
                        ns_count: 0,
                        ar_count: 0,
                    }),
                Err(e) => r == Err::<(), DNSError>(e) && *final(packet) == *old(packet),
            },
    {
        DNSRequest::init_request_with_id(domain, packet, qtype, random_id())
    }
}

/// A decoded response.
#[derive(Debug, Clone, PartialEq, Eq)]
pub struct DNSResponse {
    pub message: DNSMessage,
}

impl DNSResponse {
    /// Decodes the message at the start of `buffer`; any error aborts the
    /// whole message. Octets after the message are ignored.
    pub fn from_network_bytes(buffer: &[u8]) -> (r: DNSResult<DNSResponse>)
        ensures
            match parse_message(buffer@, 0) {
                Ok((m, _)) => r matches Ok(resp) && resp.message@ == m,
                Err(e) => r == Err::<DNSResponse, DNSError>(e),
            },
    {
        let mut message = DNSMessage::with_id(0);
        message.from_network_bytes(buffer, 0)?;
        Ok(DNSResponse { message })
    }

    /// `Ok` when the response code is NoError, else `ResponseRcode` with the code.
    pub fn check_rcode(&self) -> (r: DNSResult<()>)
        ensures
            self.message.header.flags.response_code == ResponseCode::NoError ==> r is Ok,
            self.message.header.flags.response_code != ResponseCode::NoError ==> r == Err::<(), DNSError>(
                DNSError::ResponseRcode { code: self.message.header.flags.response_code.spec_value() },
            ),
    {
        let rc = self.message.header.flags.response_code;
        if rc == ResponseCode::NoError {
            Ok(())
        } else {
            Err(DNSError::ResponseRcode { code: rc.value() })
        }
    }
}

} // verus!
