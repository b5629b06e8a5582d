//! The entries of the question section.
use vstd::prelude::*;
use vstd::string::StringSliceAdditionalSpecFns;
use crate::enums::{QClass, QType};
use crate::error::{DNSError, DNSResult};
use crate::name::{DomainName, name_from_text, name_wire, parse_name, valid_name, lemma_name_round_trip};
use crate::network_order::{FromNetworkOrder, ToNetworkOrder, u16_wire};

verus! {

/// A question: the name asked about, the record type and the class.
#[derive(Debug, Clone, PartialEq, Eq)]
pub struct DNSQuestion {
    pub name: DomainName,
    pub qtype: QType,
    pub class: QClass,
}

/// What a question holds: its name's labels, its type and its class.
pub struct QuestionView {
    pub name: Seq<Option<Seq<u8>>>,
    pub qtype: QType,
    pub class: QClass,
}

impl View for DNSQuestion {
    type V = QuestionView;

    open spec fn view(&self) -> QuestionView {
        QuestionView { name: self.name@, qtype: self.qtype, class: self.class }
    }
}

impl DNSQuestion {
    /// A question about `domain` (dotted text) of type `qtype`, in class
    /// `qclass`, or IN when none is given.
    pub fn new(domain: &str, qtype: QType, qclass: Option<QClass>) -> (r: DNSResult<DNSQuestion>)
        ensures
            match name_from_text(domain.spec_bytes()) {
                Ok(n) => r matches Ok(q) && q@ == (QuestionView {
                    name: n,
                    qtype,
                    class: match qclass { Some(c) => c, None => QClass::IN },
                }),
                Err(e) => r == Err::<DNSQuestion, DNSError>(e),
            },
    {
        let name = DomainName::try_from(domain)?;
        let class = match qclass {
            Some(c) => c,
            None => QClass::IN,
        };
        Ok(DNSQuestion { name, qtype, class })
    }
}

pub open spec fn question_wire(q: QuestionView) -> Seq<u8> {
    name_wire(q.name) + u16_wire(q.qtype.spec_value()) + u16_wire(q.class.spec_value())
}

pub open spec fn parse_question(buf: Seq<u8>, pos: int) -> Result<(QuestionView, int), DNSError> {
    match parse_name(buf, pos) {
        Err(e) => Err(e),
        Ok((name, at1)) => match QType::parse(buf, at1) {
            Err(e) => Err(e),
            Ok((qtype, at2)) => match QClass::parse(buf, at2) {
                Err(e) => Err(e),
                Ok((class, at3)) => Ok((QuestionView { name, qtype, class }, at3)),
            },
        },
    }
}

impl ToNetworkOrder for DNSQuestion {
    open spec fn encodable(&self) -> bool {
        valid_name(self.name@)
    }

    open spec fn wire(&self) -> Seq<u8> {
        question_wire(self@)
    }

    fn to_network_bytes(&self, buffer: &mut Vec<u8>) -> (r: usize) {
        let mut length = self.name.to_network_bytes(buffer);
        length += self.qtype.to_network_bytes(buffer);
        length += self.class.to_network_bytes(buffer);
        length
    }
}

impl FromNetworkOrder for DNSQuestion {
    open spec fn parse(buf: Seq<u8>, pos: int) -> Result<(QuestionView, int), DNSError> {
        parse_question(buf, pos)
    }

    fn from_network_bytes(&mut self, buffer: &[u8], pos: usize) -> (r: DNSResult<usize>) {
        let mut name = DomainName { labels: Vec::new() };
        let p = name.from_network_bytes(buffer, pos)?;
        let mut qtype = QType::default();
        let p = qtype.from_network_bytes(buffer, p)?;
        let mut class = QClass::default();
        let p = class.from_network_bytes(buffer, p)?;
        *self = DNSQuestion { name, qtype, class };
        Ok(p)
    }
}

/// A question with a valid name, written then read back, is the same question.
pub proof fn lemma_question_round_trip(q: QuestionView, prefix: Seq<u8>, suffix: Seq<u8>)
    requires
        valid_name(q.name),
    ensures
        parse_question(prefix + question_wire(q) + suffix, prefix.len() as int)
            == Ok::<(QuestionView, int), DNSError>((q, prefix.len() + question_wire(q).len() as int)),
{
    let nw = name_wire(q.name);
    let tw = u16_wire(q.qtype.spec_value());
    let cw = u16_wire(q.class.spec_value());
    let buf = prefix + question_wire(q) + suffix;
    assert(buf == prefix + nw + (tw + cw + suffix));
    lemma_name_round_trip(q.name, prefix, tw + cw + suffix);
    assert(buf == (prefix + nw) + tw + (cw + suffix));
    crate::enums::lemma_qtype_codes(q.qtype, 0, prefix + nw, cw + suffix);
    assert(buf == (prefix + nw + tw) + cw + suffix);
    crate::enums::lemma_qclass_codes(q.class, 0, prefix + nw + tw, suffix);
}

} // verus!
