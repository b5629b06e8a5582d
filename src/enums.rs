//! The enumerated types of the protocol and their numeric codes.
use vstd::prelude::*;
use vstd::string::StringSliceAdditionalSpecFns;
use crate::error::{DNSError, DNSResult, EnumKind};
use crate::network_order::{
    FromNetworkOrder, ToNetworkOrder, parse_u8, parse_u16, u16_wire, read_u8, read_u16, write_u8,
    write_u16, lemma_u8_round_trip, lemma_u16_round_trip,
};

verus! {

/// Whether a message is a query or a response (the QR bit).
#[derive(Debug, Clone, Copy, PartialEq, Eq, Structural)]
pub enum PacketType {
    Query,
    Response,
}

impl PacketType {
    /// The numeric code of the variant.
    pub open spec fn spec_value(self) -> u16 {
        match self {
            PacketType::Query => 0,
            PacketType::Response => 1,
        }
    }

    /// The variant whose code is `v`, if one is declared.
    pub open spec fn from_value(v: u16) -> Option<PacketType> {
        if v == 0 {
            Some(PacketType::Query)
        } else if v == 1 {
            Some(PacketType::Response)
        } else {
            None
        }
    }

    /// The numeric code of the variant.
    pub fn value(&self) -> (r: u16)
        ensures
            r == self.spec_value(),
    {
        match self {
            PacketType::Query => 0,
            PacketType::Response => 1,
        }
    }

    /// The variant whose code is `value`; `UnknownEnumValue` when none is declared.
    pub fn try_from(value: u16) -> (r: DNSResult<PacketType>)
        ensures
            match Self::from_value(value) {
                Some(t) => r == Ok::<PacketType, DNSError>(t),
                None => r == Err::<PacketType, DNSError>(DNSError::UnknownEnumValue { kind: EnumKind::PacketType, value }),
            },
    {
        match value {
            0 => Ok(PacketType::Query),
            1 => Ok(PacketType::Response),
            _ => Err(DNSError::UnknownEnumValue { kind: EnumKind::PacketType, value }),
        }
    }

    /// The variant whose name is `s`, if one is.
    pub open spec fn from_name_spec(s: Seq<u8>) -> Option<PacketType> {
        if s == seq![81u8, 117u8, 101u8, 114u8, 121u8] {
            Some(PacketType::Query)
        } else if s == seq![82u8, 101u8, 115u8, 112u8, 111u8, 110u8, 115u8, 101u8] {
            Some(PacketType::Response)
        } else {
            None
        }
    }

    fn lookup_name(b: &[u8]) -> (r: Option<PacketType>)
        ensures
            r == Self::from_name_spec(b@),
    {
        let n = b.len();
        if n == 5 && b[0] == 81 && b[1] == 117 && b[2] == 101 && b[3] == 114 && b[4] == 121 {
            assert(b@ =~= seq![81u8, 117u8, 101u8, 114u8, 121u8]);
            return Some(PacketType::Query);
        }
        if n == 8 && b[0] == 82 && b[1] == 101 && b[2] == 115 && b[3] == 112 && b[4] == 111 && b[5] == 110 && b[6] == 115 && b[7] == 101 {
            assert(b@ =~= seq![82u8, 101u8, 115u8, 112u8, 111u8, 110u8, 115u8, 101u8]);
            return Some(PacketType::Response);
        }
        None
    }

    /// The variant named `s` exactly (names are upper case, as declared);
    /// `UnknownEnumName` when no variant has that name.
    pub fn from_name(s: &str) -> (r: DNSResult<PacketType>)
        ensures
            match Self::from_name_spec(s.spec_bytes()) {
                Some(t) => r == Ok::<PacketType, DNSError>(t),
                None => r == Err::<PacketType, DNSError>(DNSError::UnknownEnumName { kind: EnumKind::PacketType }),
            },
    {
        let b = s.as_bytes();
        let found = Self::lookup_name(b);
        match found {
            Some(t) => Ok(t),
            None => Err(DNSError::UnknownEnumName { kind: EnumKind::PacketType }),
        }
    }

    /// The first declared variant, `Query`.
    pub fn default() -> (r: PacketType)
        ensures
            r == PacketType::Query,
    {
        PacketType::Query
    }
}

impl View for PacketType {
    type V = PacketType;

    open spec fn view(&self) -> PacketType {
        *self
    }
}

impl ToNetworkOrder for PacketType {
    open spec fn encodable(&self) -> bool {
        true
    }

    open spec fn wire(&self) -> Seq<u8> {
        seq![self.spec_value() as u8]
    }

    fn to_network_bytes(&self, buffer: &mut Vec<u8>) -> (r: usize) {
        write_u8(buffer, self.value() as u8);
        1
    }
}

impl FromNetworkOrder for PacketType {
    open spec fn parse(buf: Seq<u8>, pos: int) -> Result<(PacketType, int), DNSError> {
        match parse_u8(buf, pos) {
            Ok((v, end)) => match PacketType::from_value(v as u16) {
                Some(t) => Ok((t, end)),
                None => Err(DNSError::UnknownEnumValue { kind: EnumKind::PacketType, value: v as u16 }),
            },
            Err(e) => Err(e),
        }
    }

    fn from_network_bytes(&mut self, buffer: &[u8], pos: usize) -> (r: DNSResult<usize>) {
        let (v, end) = read_u8(buffer, pos)?;
        *self = PacketType::try_from(v as u16)?;
        Ok(end)
    }
}

/// Every declared code names exactly one variant, and every variant's code maps back to it.
/// On the wire, every variant reads back as itself, and a code outside the
/// declared set reads as `UnknownEnumValue`.
pub proof fn lemma_packet_type_codes(t: PacketType, v: u8, prefix: Seq<u8>, suffix: Seq<u8>)
    ensures
        PacketType::from_value(t.spec_value()) == Some(t),
        PacketType::from_value(v as u16) matches Some(u) ==> u.spec_value() == v as u16,
        PacketType::parse(prefix + t.wire() + suffix, prefix.len() as int) == Ok::<(PacketType, int), DNSError>((t, prefix.len() as int + 1)),
        PacketType::from_value(v as u16) is None ==> PacketType::parse(prefix + seq![v] + suffix, prefix.len() as int)
            == Err::<(PacketType, int), DNSError>(DNSError::UnknownEnumValue { kind: EnumKind::PacketType, value: v as u16 }),
{
    lemma_u8_round_trip(t.spec_value() as u8, prefix, suffix);
    lemma_u8_round_trip(v, prefix, suffix);
}

/// The kind of query a message carries.
#[derive(Debug, Clone, Copy, PartialEq, Eq, Structural)]
pub enum OpCode {
    Query,
    IQuery,
    Status,
    Unassigned,
    Notify,
    Update,
    DOS,
}

impl OpCode {
    /// The numeric code of the variant.
    pub open spec fn spec_value(self) -> u16 {
        match self {
            OpCode::Query => 0,
            OpCode::IQuery => 1,
            OpCode::Status => 2,
            OpCode::Unassigned => 3,
            OpCode::Notify => 4,
            OpCode::Update => 5,
            OpCode::DOS => 6,
        }
    }

    /// The variant whose code is `v`, if one is declared.
    pub open spec fn from_value(v: u16) -> Option<OpCode> {
        if v == 0 {
            Some(OpCode::Query)
        } else if v == 1 {
            Some(OpCode::IQuery)
        } else if v == 2 {
            Some(OpCode::Status)
        } else if v == 3 {
            Some(OpCode::Unassigned)
        } else if v == 4 {
            Some(OpCode::Notify)
        } else if v == 5 {
            Some(OpCode::Update)
        } else if v == 6 {
            Some(OpCode::DOS)
        } else {
            None
        }
    }

    /// The numeric code of the variant.
    pub fn value(&self) -> (r: u16)
        ensures
            r == self.spec_value(),
    {
        match self {
            OpCode::Query => 0,
            OpCode::IQuery => 1,
            OpCode::Status => 2,
            OpCode::Unassigned => 3,
            OpCode::Notify => 4,
            OpCode::Update => 5,
            OpCode::DOS => 6,
        }
    }

    /// The variant whose code is `value`; `UnknownEnumValue` when none is declared.
    pub fn try_from(value: u16) -> (r: DNSResult<OpCode>)
        ensures
            match Self::from_value(value) {
                Some(t) => r == Ok::<OpCode, DNSError>(t),
                None => r == Err::<OpCode, DNSError>(DNSError::UnknownEnumValue { kind: EnumKind::OpCode, value }),
            },
    {
        match value {
            0 => Ok(OpCode::Query),
            1 => Ok(OpCode::IQuery),
            2 => Ok(OpCode::Status),
            3 => Ok(OpCode::Unassigned),
            4 => Ok(OpCode::Notify),
            5 => Ok(OpCode::Update),
            6 => Ok(OpCode::DOS),
            _ => Err(DNSError::UnknownEnumValue { kind: EnumKind::OpCode, value }),
        }
    }

    /// The variant whose name is `s`, if one is.
    pub open spec fn from_name_spec(s: Seq<u8>) -> Option<OpCode> {
        if s == seq![81u8, 117u8, 101u8, 114u8, 121u8] {
            Some(OpCode::Query)
        } else if s == seq![73u8, 81u8, 117u8, 101u8, 114u8, 121u8] {
            Some(OpCode::IQuery)
        } else if s == seq![83u8, 116u8, 97u8, 116u8, 117u8, 115u8] {
            Some(OpCode::Status)
        } else if s == seq![85u8, 110u8, 97u8, 115u8, 115u8, 105u8, 103u8, 110u8, 101u8, 100u8] {
            Some(OpCode::Unassigned)
        } else if s == seq![78u8, 111u8, 116u8, 105u8, 102u8, 121u8] {
            Some(OpCode::Notify)
        } else if s == seq![85u8, 112u8, 100u8, 97u8, 116u8, 101u8] {
            Some(OpCode::Update)
        } else if s == seq![68u8, 79u8, 83u8] {
            Some(OpCode::DOS)
        } else {
            None
        }
    }

    fn lookup_name(b: &[u8]) -> (r: Option<OpCode>)
        ensures
            r == Self::from_name_spec(b@),
    {
        let n = b.len();
        if n == 5 && b[0] == 81 && b[1] == 117 && b[2] == 101 && b[3] == 114 && b[4] == 121 {
            assert(b@ =~= seq![81u8, 117u8, 101u8, 114u8, 121u8]);
            return Some(OpCode::Query);
        }
        if n == 6 && b[0] == 73 && b[1] == 81 && b[2] == 117 && b[3] == 101 && b[4] == 114 && b[5] == 121 {
            assert(b@ =~= seq![73u8, 81u8, 117u8, 101u8, 114u8, 121u8]);
            return Some(OpCode::IQuery);
        }
        if n == 6 && b[0] == 83 && b[1] == 116 && b[2] == 97 && b[3] == 116 && b[4] == 117 && b[5] == 115 {
            assert(b@ =~= seq![83u8, 116u8, 97u8, 116u8, 117u8, 115u8]);
            return Some(OpCode::Status);
        }
        if n == 10 && b[0] == 85 && b[1] == 110 && b[2] == 97 && b[3] == 115 && b[4] == 115 && b[5] == 105 && b[6] == 103 && b[7] == 110 && b[8] == 101 && b[9] == 100 {
            assert(b@ =~= seq![85u8, 110u8, 97u8, 115u8, 115u8, 105u8, 103u8, 110u8, 101u8, 100u8]);
            return Some(OpCode::Unassigned);
        }
        if n == 6 && b[0] == 78 && b[1] == 111 && b[2] == 116 && b[3] == 105 && b[4] == 102 && b[5] == 121 {
            assert(b@ =~= seq![78u8, 111u8, 116u8, 105u8, 102u8, 121u8]);
            return Some(OpCode::Notify);
        }
        if n == 6 && b[0] == 85 && b[1] == 112 && b[2] == 100 && b[3] == 97 && b[4] == 116 && b[5] == 101 {
            assert(b@ =~= seq![85u8, 112u8, 100u8, 97u8, 116u8, 101u8]);
            return Some(OpCode::Update);
        }
        if n == 3 && b[0] == 68 && b[1] == 79 && b[2] == 83 {
            assert(b@ =~= seq![68u8, 79u8, 83u8]);
            return Some(OpCode::DOS);
        }
        None
    }

    /// The variant named `s` exactly (names are upper case, as declared);
    /// `UnknownEnumName` when no variant has that name.
    pub fn from_name(s: &str) -> (r: DNSResult<OpCode>)
        ensures
            match Self::from_name_spec(s.spec_bytes()) {
                Some(t) => r == Ok::<OpCode, DNSError>(t),
                None => r == Err::<OpCode, DNSError>(DNSError::UnknownEnumName { kind: EnumKind::OpCode }),
            },
    {
        let b = s.as_bytes();
        let found = Self::lookup_name(b);
        match found {
            Some(t) => Ok(t),
            None => Err(DNSError::UnknownEnumName { kind: EnumKind::OpCode }),
        }
    }

    /// The first declared variant, `Query`.
    pub fn default() -> (r: OpCode)
        ensures
            r == OpCode::Query,
    {
        OpCode::Query
    }
}

impl View for OpCode {
    type V = OpCode;

    open spec fn view(&self) -> OpCode {
        *self
    }
}

impl ToNetworkOrder for OpCode {
    open spec fn encodable(&self) -> bool {
        true
    }

    open spec fn wire(&self) -> Seq<u8> {
        seq![self.spec_value() as u8]
    }

    fn to_network_bytes(&self, buffer: &mut Vec<u8>) -> (r: usize) {
        write_u8(buffer, self.value() as u8);
        1
    }
}

impl FromNetworkOrder for OpCode {
    open spec fn parse(buf: Seq<u8>, pos: int) -> Result<(OpCode, int), DNSError> {
        match parse_u8(buf, pos) {
            Ok((v, end)) => match OpCode::from_value(v as u16) {
                Some(t) => Ok((t, end)),
                None => Err(DNSError::UnknownEnumValue { kind: EnumKind::OpCode, value: v as u16 }),
            },
            Err(e) => Err(e),
        }
    }

    fn from_network_bytes(&mut self, buffer: &[u8], pos: usize) -> (r: DNSResult<usize>) {
        let (v, end) = read_u8(buffer, pos)?;
        *self = OpCode::try_from(v as u16)?;
        Ok(end)
    }
}

/// Every declared code names exactly one variant, and every variant's code maps back to it.
/// On the wire, every variant reads back as itself, and a code outside the
/// declared set reads as `UnknownEnumValue`.
pub proof fn lemma_opcode_codes(t: OpCode, v: u8, prefix: Seq<u8>, suffix: Seq<u8>)
    ensures
        OpCode::from_value(t.spec_value()) == Some(t),
        OpCode::from_value(v as u16) matches Some(u) ==> u.spec_value() == v as u16,
        OpCode::parse(prefix + t.wire() + suffix, prefix.len() as int) == Ok::<(OpCode, int), DNSError>((t, prefix.len() as int + 1)),
        OpCode::from_value(v as u16) is None ==> OpCode::parse(prefix + seq![v] + suffix, prefix.len() as int)
            == Err::<(OpCode, int), DNSError>(DNSError::UnknownEnumValue { kind: EnumKind::OpCode, value: v as u16 }),
{
    lemma_u8_round_trip(t.spec_value() as u8, prefix, suffix);
    lemma_u8_round_trip(v, prefix, suffix);
}

/// The status of a response.
#[derive(Debug, Clone, Copy, PartialEq, Eq, Structural)]
pub enum ResponseCode {
    NoError,
    FormErr,
    ServFail,
    NXDomain,
    NotImp,
    Refused,
    YXDomain,
    YXRRSet,
    NXRRSet,
    NotAuth,
    NotZone,
    DSOTYPENI,
    BADVERS,
    BADKEY,
    BADTIME,
    BADMODE,
    BADNAME,
    BADALG,
    BADTRUNC,
    BADCOOKIE,
}

impl ResponseCode {
    /// The numeric code of the variant.
    pub open spec fn spec_value(self) -> u16 {
        match self {
            ResponseCode::NoError => 0,
            ResponseCode::FormErr => 1,
            ResponseCode::ServFail => 2,
            ResponseCode::NXDomain => 3,
            ResponseCode::NotImp => 4,
            ResponseCode::Refused => 5,
            ResponseCode::YXDomain => 6,
            ResponseCode::YXRRSet => 7,
            ResponseCode::NXRRSet => 8,
            ResponseCode::NotAuth => 9,
            ResponseCode::NotZone => 10,
            ResponseCode::DSOTYPENI => 11,
            ResponseCode::BADVERS => 16,
            ResponseCode::BADKEY => 17,
            ResponseCode::BADTIME => 18,
            ResponseCode::BADMODE => 19,
            ResponseCode::BADNAME => 20,
            ResponseCode::BADALG => 21,
            ResponseCode::BADTRUNC => 22,
            ResponseCode::BADCOOKIE => 23,
        }
    }

    /// The variant whose code is `v`, if one is declared.
    pub open spec fn from_value(v: u16) -> Option<ResponseCode> {
        if v == 0 {
            Some(ResponseCode::NoError)
        } else if v == 1 {
            Some(ResponseCode::FormErr)
        } else if v == 2 {
            Some(ResponseCode::ServFail)
        } else if v == 3 {
            Some(ResponseCode::NXDomain)
        } else if v == 4 {
            Some(ResponseCode::NotImp)
        } else if v == 5 {
            Some(ResponseCode::Refused)
        } else if v == 6 {
            Some(ResponseCode::YXDomain)
        } else if v == 7 {
            Some(ResponseCode::YXRRSet)
        } else if v == 8 {
            Some(ResponseCode::NXRRSet)
        } else if v == 9 {
            Some(ResponseCode::NotAuth)
        } else if v == 10 {
            Some(ResponseCode::NotZone)
        } else if v == 11 {
            Some(ResponseCode::DSOTYPENI)
        } else if v == 16 {
            Some(ResponseCode::BADVERS)
        } else if v == 17 {
            Some(ResponseCode::BADKEY)
        } else if v == 18 {
            Some(ResponseCode::BADTIME)
        } else if v == 19 {
            Some(ResponseCode::BADMODE)
        } else if v == 20 {
            Some(ResponseCode::BADNAME)
        } else if v == 21 {
            Some(ResponseCode::BADALG)
        } else if v == 22 {
            Some(ResponseCode::BADTRUNC)
        } else if v == 23 {
            Some(ResponseCode::BADCOOKIE)
        } else {
            None
        }
    }

    /// The numeric code of the variant.
    pub fn value(&self) -> (r: u16)
        ensures
            r == self.spec_value(),
    {
        match self {
            ResponseCode::NoError => 0,
            ResponseCode::FormErr => 1,
            ResponseCode::ServFail => 2,
            ResponseCode::NXDomain => 3,
            ResponseCode::NotImp => 4,
            ResponseCode::Refused => 5,
            ResponseCode::YXDomain => 6,
            ResponseCode::YXRRSet => 7,
            ResponseCode::NXRRSet => 8,
            ResponseCode::NotAuth => 9,
            ResponseCode::NotZone => 10,
            ResponseCode::DSOTYPENI => 11,
            ResponseCode::BADVERS => 16,
            ResponseCode::BADKEY => 17,
            ResponseCode::BADTIME => 18,
            ResponseCode::BADMODE => 19,
            ResponseCode::BADNAME => 20,
            ResponseCode::BADALG => 21,
            ResponseCode::BADTRUNC => 22,
            ResponseCode::BADCOOKIE => 23,
        }
    }

    /// The variant whose code is `value`; `UnknownEnumValue` when none is declared.
    pub fn try_from(value: u16) -> (r: DNSResult<ResponseCode>)
        ensures
            match Self::from_value(value) {
                Some(t) => r == Ok::<ResponseCode, DNSError>(t),
                None => r == Err::<ResponseCode, DNSError>(DNSError::UnknownEnumValue { kind: EnumKind::ResponseCode, value }),
            },
    {
        match value {
            0 => Ok(ResponseCode::NoError),
            1 => Ok(ResponseCode::FormErr),
            2 => Ok(ResponseCode::ServFail),
            3 => Ok(ResponseCode::NXDomain),
            4 => Ok(ResponseCode::NotImp),
            5 => Ok(ResponseCode::Refused),
            6 => Ok(ResponseCode::YXDomain),
            7 => Ok(ResponseCode::YXRRSet),
            8 => Ok(ResponseCode::NXRRSet),
            9 => Ok(ResponseCode::NotAuth),
            10 => Ok(ResponseCode::NotZone),
            11 => Ok(ResponseCode::DSOTYPENI),
            16 => Ok(ResponseCode::BADVERS),
            17 => Ok(ResponseCode::BADKEY),
            18 => Ok(ResponseCode::BADTIME),
            19 => Ok(ResponseCode::BADMODE),
            20 => Ok(ResponseCode::BADNAME),
            21 => Ok(ResponseCode::BADALG),
            22 => Ok(ResponseCode::BADTRUNC),
            23 => Ok(ResponseCode::BADCOOKIE),
            _ => Err(DNSError::UnknownEnumValue { kind: EnumKind::ResponseCode, value }),
        }
    }

    /// The variant whose name is `s`, if one is.
    pub open spec fn from_name_spec(s: Seq<u8>) -> Option<ResponseCode> {
        if s == seq![78u8, 111u8, 69u8, 114u8, 114u8, 111u8, 114u8] {
            Some(ResponseCode::NoError)
        } else if s == seq![70u8, 111u8, 114u8, 109u8, 69u8, 114u8, 114u8] {
            Some(ResponseCode::FormErr)
        } else if s == seq![83u8, 101u8, 114u8, 118u8, 70u8, 97u8, 105u8, 108u8] {
            Some(ResponseCode::ServFail)
        } else if s == seq![78u8, 88u8, 68u8, 111u8, 109u8, 97u8, 105u8, 110u8] {
            Some(ResponseCode::NXDomain)
        } else if s == seq![78u8, 111u8, 116u8, 73u8, 109u8, 112u8] {
            Some(ResponseCode::NotImp)
        } else if s == seq![82u8, 101u8, 102u8, 117u8, 115u8, 101u8, 100u8] {
            Some(ResponseCode::Refused)
        } else if s == seq![89u8, 88u8, 68u8, 111u8, 109u8, 97u8, 105u8, 110u8] {
            Some(ResponseCode::YXDomain)
        } else if s == seq![89u8, 88u8, 82u8, 82u8, 83u8, 101u8, 116u8] {
            Some(ResponseCode::YXRRSet)
        } else if s == seq![78u8, 88u8, 82u8, 82u8, 83u8, 101u8, 116u8] {
            Some(ResponseCode::NXRRSet)
        } else if s == seq![78u8, 111u8, 116u8, 65u8, 117u8, 116u8, 104u8] {
            Some(ResponseCode::NotAuth)
        } else if s == seq![78u8, 111u8, 116u8, 90u8, 111u8, 110u8, 101u8] {
            Some(ResponseCode::NotZone)
        } else if s == seq![68u8, 83u8, 79u8, 84u8, 89u8, 80u8, 69u8, 78u8, 73u8] {
            Some(ResponseCode::DSOTYPENI)
        } else if s == seq![66u8, 65u8, 68u8, 86u8, 69u8, 82u8, 83u8] {
            Some(ResponseCode::BADVERS)
        } else if s == seq![66u8, 65u8, 68u8, 75u8, 69u8, 89u8] {
            Some(ResponseCode::BADKEY)
        } else if s == seq![66u8, 65u8, 68u8, 84u8, 73u8, 77u8, 69u8] {
            Some(ResponseCode::BADTIME)
        } else if s == seq![66u8, 65u8, 68u8, 77u8, 79u8, 68u8, 69u8] {
            Some(ResponseCode::BADMODE)
        } else if s == seq![66u8, 65u8, 68u8, 78u8, 65u8, 77u8, 69u8] {
            Some(ResponseCode::BADNAME)
        } else if s == seq![66u8, 65u8, 68u8, 65u8, 76u8, 71u8] {
            Some(ResponseCode::BADALG)
        } else if s == seq![66u8, 65u8, 68u8, 84u8, 82u8, 85u8, 78u8, 67u8] {
            Some(ResponseCode::BADTRUNC)
        } else if s == seq![66u8, 65u8, 68u8, 67u8, 79u8, 79u8, 75u8, 73u8, 69u8] {
            Some(ResponseCode::BADCOOKIE)
        } else {
            None
        }
    }

    fn lookup_name(b: &[u8]) -> (r: Option<ResponseCode>)
        ensures
            r == Self::from_name_spec(b@),
    {
        let n = b.len();
        if n == 7 && b[0] == 78 && b[1] == 111 && b[2] == 69 && b[3] == 114 && b[4] == 114 && b[5] == 111 && b[6] == 114 {
            assert(b@ =~= seq![78u8, 111u8, 69u8, 114u8, 114u8, 111u8, 114u8]);
            return Some(ResponseCode::NoError);
        }
        if n == 7 && b[0] == 70 && b[1] == 111 && b[2] == 114 && b[3] == 109 && b[4] == 69 && b[5] == 114 && b[6] == 114 {
            assert(b@ =~= seq![70u8, 111u8, 114u8, 109u8, 69u8, 114u8, 114u8]);
            return Some(ResponseCode::FormErr);
        }
        if n == 8 && b[0] == 83 && b[1] == 101 && b[2] == 114 && b[3] == 118 && b[4] == 70 && b[5] == 97 && b[6] == 105 && b[7] == 108 {
            assert(b@ =~= seq![83u8, 101u8, 114u8, 118u8, 70u8, 97u8, 105u8, 108u8]);
            return Some(ResponseCode::ServFail);
        }
        if n == 8 && b[0] == 78 && b[1] == 88 && b[2] == 68 && b[3] == 111 && b[4] == 109 && b[5] == 97 && b[6] == 105 && b[7] == 110 {
            assert(b@ =~= seq![78u8, 88u8, 68u8, 111u8, 109u8, 97u8, 105u8, 110u8]);
            return Some(ResponseCode::NXDomain);
        }
        if n == 6 && b[0] == 78 && b[1] == 111 && b[2] == 116 && b[3] == 73 && b[4] == 109 && b[5] == 112 {
            assert(b@ =~= seq![78u8, 111u8, 116u8, 73u8, 109u8, 112u8]);
            return Some(ResponseCode::NotImp);
        }
        if n == 7 && b[0] == 82 && b[1] == 101 && b[2] == 102 && b[3] == 117 && b[4] == 115 && b[5] == 101 && b[6] == 100 {
            assert(b@ =~= seq![82u8, 101u8, 102u8, 117u8, 115u8, 101u8, 100u8]);
            return Some(ResponseCode::Refused);
        }
        if n == 8 && b[0] == 89 && b[1] == 88 && b[2] == 68 && b[3] == 111 && b[4] == 109 && b[5] == 97 && b[6] == 105 && b[7] == 110 {
            assert(b@ =~= seq![89u8, 88u8, 68u8, 111u8, 109u8, 97u8, 105u8, 110u8]);
            return Some(ResponseCode::YXDomain);
        }
        if n == 7 && b[0] == 89 && b[1] == 88 && b[2] == 82 && b[3] == 82 && b[4] == 83 && b[5] == 101 && b[6] == 116 {
            assert(b@ =~= seq![89u8, 88u8, 82u8, 82u8, 83u8, 101u8, 116u8]);
            return Some(ResponseCode::YXRRSet);
        }
        if n == 7 && b[0] == 78 && b[1] == 88 && b[2] == 82 && b[3] == 82 && b[4] == 83 && b[5] == 101 && b[6] == 116 {
            assert(b@ =~= seq![78u8, 88u8, 82u8, 82u8, 83u8, 101u8, 116u8]);
            return Some(ResponseCode::NXRRSet);
        }
        if n == 7 && b[0] == 78 && b[1] == 111 && b[2] == 116 && b[3] == 65 && b[4] == 117 && b[5] == 116 && b[6] == 104 {
            assert(b@ =~= seq![78u8, 111u8, 116u8, 65u8, 117u8, 116u8, 104u8]);
            return Some(ResponseCode::NotAuth);
        }
        if n == 7 && b[0] == 78 && b[1] == 111 && b[2] == 116 && b[3] == 90 && b[4] == 111 && b[5] == 110 && b[6] == 101 {
            assert(b@ =~= seq![78u8, 111u8, 116u8, 90u8, 111u8, 110u8, 101u8]);
            return Some(ResponseCode::NotZone);
        }
        if n == 9 && b[0] == 68 && b[1] == 83 && b[2] == 79 && b[3] == 84 && b[4] == 89 && b[5] == 80 && b[6] == 69 && b[7] == 78 && b[8] == 73 {
            assert(b@ =~= seq![68u8, 83u8, 79u8, 84u8, 89u8, 80u8, 69u8, 78u8, 73u8]);
            return Some(ResponseCode::DSOTYPENI);
        }
        if n == 7 && b[0] == 66 && b[1] == 65 && b[2] == 68 && b[3] == 86 && b[4] == 69 && b[5] == 82 && b[6] == 83 {
            assert(b@ =~= seq![66u8, 65u8, 68u8, 86u8, 69u8, 82u8, 83u8]);
            return Some(ResponseCode::BADVERS);
        }
        if n == 6 && b[0] == 66 && b[1] == 65 && b[2] == 68 && b[3] == 75 && b[4] == 69 && b[5] == 89 {
            assert(b@ =~= seq![66u8, 65u8, 68u8, 75u8, 69u8, 89u8]);
            return Some(ResponseCode::BADKEY);
        }
        if n == 7 && b[0] == 66 && b[1] == 65 && b[2] == 68 && b[3] == 84 && b[4] == 73 && b[5] == 77 && b[6] == 69 {
            assert(b@ =~= seq![66u8, 65u8, 68u8, 84u8, 73u8, 77u8, 69u8]);
            return Some(ResponseCode::BADTIME);
        }
        if n == 7 && b[0] == 66 && b[1] == 65 && b[2] == 68 && b[3] == 77 && b[4] == 79 && b[5] == 68 && b[6] == 69 {
            assert(b@ =~= seq![66u8, 65u8, 68u8, 77u8, 79u8, 68u8, 69u8]);
            return Some(ResponseCode::BADMODE);
        }
        if n == 7 && b[0] == 66 && b[1] == 65 && b[2] == 68 && b[3] == 78 && b[4] == 65 && b[5] == 77 && b[6] == 69 {
            assert(b@ =~= seq![66u8, 65u8, 68u8, 78u8, 65u8, 77u8, 69u8]);
            return Some(ResponseCode::BADNAME);
        }
        if n == 6 && b[0] == 66 && b[1] == 65 && b[2] == 68 && b[3] == 65 && b[4] == 76 && b[5] == 71 {
            assert(b@ =~= seq![66u8, 65u8, 68u8, 65u8, 76u8, 71u8]);
            return Some(ResponseCode::BADALG);
        }
        if n == 8 && b[0] == 66 && b[1] == 65 && b[2] == 68 && b[3] == 84 && b[4] == 82 && b[5] == 85 && b[6] == 78 && b[7] == 67 {
            assert(b@ =~= seq![66u8, 65u8, 68u8, 84u8, 82u8, 85u8, 78u8, 67u8]);
            return Some(ResponseCode::BADTRUNC);
        }
        if n == 9 && b[0] == 66 && b[1] == 65 && b[2] == 68 && b[3] == 67 && b[4] == 79 && b[5] == 79 && b[6] == 75 && b[7] == 73 && b[8] == 69 {
            assert(b@ =~= seq![66u8, 65u8, 68u8, 67u8, 79u8, 79u8, 75u8, 73u8, 69u8]);
            return Some(ResponseCode::BADCOOKIE);
        }
        None
    }

    /// The variant named `s` exactly (names are upper case, as declared);
    /// `UnknownEnumName` when no variant has that name.
    pub fn from_name(s: &str) -> (r: DNSResult<ResponseCode>)
        ensures
            match Self::from_name_spec(s.spec_bytes()) {
                Some(t) => r == Ok::<ResponseCode, DNSError>(t),
                None => r == Err::<ResponseCode, DNSError>(DNSError::UnknownEnumName { kind: EnumKind::ResponseCode }),
            },
    {
        let b = s.as_bytes();
        let found = Self::lookup_name(b);
        match found {
            Some(t) => Ok(t),
            None => Err(DNSError::UnknownEnumName { kind: EnumKind::ResponseCode }),
        }
    }

    /// The first declared variant, `NoError`.
    pub fn default() -> (r: ResponseCode)
        ensures
            r == ResponseCode::NoError,
    {
        ResponseCode::NoError
    }
}

impl View for ResponseCode {
    type V = ResponseCode;

    open spec fn view(&self) -> ResponseCode {
        *self
    }
}

impl ToNetworkOrder for ResponseCode {
    open spec fn encodable(&self) -> bool {
        true
    }

    open spec fn wire(&self) -> Seq<u8> {
        u16_wire(self.spec_value())
    }

    fn to_network_bytes(&self, buffer: &mut Vec<u8>) -> (r: usize) {
        write_u16(buffer, self.value());
        2
    }
}

impl FromNetworkOrder for ResponseCode {
    open spec fn parse(buf: Seq<u8>, pos: int) -> Result<(ResponseCode, int), DNSError> {
        match parse_u16(buf, pos) {
            Ok((v, end)) => match ResponseCode::from_value(v) {
                Some(t) => Ok((t, end)),
                None => Err(DNSError::UnknownEnumValue { kind: EnumKind::ResponseCode, value: v }),
            },
            Err(e) => Err(e),
        }
    }

    fn from_network_bytes(&mut self, buffer: &[u8], pos: usize) -> (r: DNSResult<usize>) {
        let (v, end) = read_u16(buffer, pos)?;
        *self = ResponseCode::try_from(v)?;
        Ok(end)
    }
}

/// Every declared code names exactly one variant, and every variant's code maps back to it.
/// On the wire, every variant reads back as itself, and a code outside the
/// declared set reads as `UnknownEnumValue`.
pub proof fn lemma_response_code_codes(t: ResponseCode, v: u16, prefix: Seq<u8>, suffix: Seq<u8>)
    ensures
        ResponseCode::from_value(t.spec_value()) == Some(t),
        ResponseCode::from_value(v) matches Some(u) ==> u.spec_value() == v,
        ResponseCode::parse(prefix + t.wire() + suffix, prefix.len() as int) == Ok::<(ResponseCode, int), DNSError>((t, prefix.len() as int + 2)),
        ResponseCode::from_value(v) is None ==> ResponseCode::parse(prefix + u16_wire(v) + suffix, prefix.len() as int)
            == Err::<(ResponseCode, int), DNSError>(DNSError::UnknownEnumValue { kind: EnumKind::ResponseCode, value: v }),
{
    lemma_u16_round_trip(t.spec_value(), prefix, suffix);
    lemma_u16_round_trip(v, prefix, suffix);
}

/// Resource record types.
#[derive(Debug, Clone, Copy, PartialEq, Eq, Structural)]
pub enum QType {
    A,
    NS,
    MD,
    MF,
    CNAME,
    SOA,
    MB,
    MG,
    MR,
    NULL,
    WKS,
    PTR,
    HINFO,
    MINFO,
    MX,
    TXT,
    RP,
    AFSDB,
    X25,
    ISDN,
    RT,
    NSAP,
    NSAPPTR,
    SIG,
    KEY,
    PX,
    GPOS,
    AAAA,
    LOC,
    NXT,
    EID,
    NIMLOC,
    SRV,
    ATMA,
    NAPTR,
    KX,
    CERT,
    A6,
    DNAME,
    SINK,
    OPT,
    APL,
    DS,
    SSHFP,
    IPSECKEY,
    RRSIG,
    NSEC,
    DNSKEY,
    DHCID,
    NSEC3,
    NSEC3PARAM,
    TLSA,
    SMIMEA,
    Unassigned,
    HIP,
    NINFO,
    RKEY,
    TALINK,
    CDS,
    CDNSKEY,
    OPENPGPKEY,
    CSYNC,
    ZONEMD,
    SVCB,
    HTTPS,
    SPF,
    UINFO,
    UID,
    GID,
    UNSPEC,
    NID,
    L32,
    L64,
    LP,
    EUI48,
    EUI64,
    TKEY,
    TSIG,
    IXFR,
    AXFR,
    MAILB,
    MAILA,
    ANY,
    URI,
    CAA,
    AVC,
    DOA,
    AMTRELAY,
    TA,
    DLV,
}

impl QType {
    /// The numeric code of the variant.
    pub open spec fn spec_value(self) -> u16 {
        match self {
            QType::A => 1,
            QType::NS => 2,
            QType::MD => 3,
            QType::MF => 4,
            QType::CNAME => 5,
            QType::SOA => 6,
            QType::MB => 7,
            QType::MG => 8,
            QType::MR => 9,
            QType::NULL => 10,
            QType::WKS => 11,
            QType::PTR => 12,
            QType::HINFO => 13,
            QType::MINFO => 14,
            QType::MX => 15,
            QType::TXT => 16,
            QType::RP => 17,
            QType::AFSDB => 18,
            QType::X25 => 19,
            QType::ISDN => 20,
            QType::RT => 21,
            QType::NSAP => 22,
            QType::NSAPPTR => 23,
            QType::SIG => 24,
            QType::KEY => 25,
            QType::PX => 26,
            QType::GPOS => 27,
            QType::AAAA => 28,
            QType::LOC => 29,
            QType::NXT => 30,
            QType::EID => 31,
            QType::NIMLOC => 32,
            QType::SRV => 33,
            QType::ATMA => 34,
            QType::NAPTR => 35,
            QType::KX => 36,
            QType::CERT => 37,
            QType::A6 => 38,
            QType::DNAME => 39,
            QType::SINK => 40,
            QType::OPT => 41,
            QType::APL => 42,
            QType::DS => 43,
            QType::SSHFP => 44,
            QType::IPSECKEY => 45,
            QType::RRSIG => 46,
            QType::NSEC => 47,
            QType::DNSKEY => 48,
            QType::DHCID => 49,
            QType::NSEC3 => 50,
            QType::NSEC3PARAM => 51,
            QType::TLSA => 52,
            QType::SMIMEA => 53,
            QType::Unassigned => 54,
            QType::HIP => 55,
            QType::NINFO => 56,
            QType::RKEY => 57,
            QType::TALINK => 58,
            QType::CDS => 59,
            QType::CDNSKEY => 60,
            QType::OPENPGPKEY => 61,
            QType::CSYNC => 62,
            QType::ZONEMD => 63,
            QType::SVCB => 64,
            QType::HTTPS => 65,
            QType::SPF => 99,
            QType::UINFO => 100,
            QType::UID => 101,
            QType::GID => 102,
            QType::UNSPEC => 103,
            QType::NID => 104,
            QType::L32 => 105,
            QType::L64 => 106,
            QType::LP => 107,
            QType::EUI48 => 108,
            QType::EUI64 => 109,
            QType::TKEY => 249,
            QType::TSIG => 250,
            QType::IXFR => 251,
            QType::AXFR => 252,
            QType::MAILB => 253,
            QType::MAILA => 254,
            QType::ANY => 255,
            QType::URI => 256,
            QType::CAA => 257,
            QType::AVC => 258,
            QType::DOA => 259,
            QType::AMTRELAY => 260,
            QType::TA => 32768,
            QType::DLV => 32769,
        }
    }

    /// The variant whose code is `v`, if one is declared.
    pub open spec fn from_value(v: u16) -> Option<QType> {
        if v == 1 {
            Some(QType::A)
        } else if v == 2 {
            Some(QType::NS)
        } else if v == 3 {
            Some(QType::MD)
        } else if v == 4 {
            Some(QType::MF)
        } else if v == 5 {
            Some(QType::CNAME)
        } else if v == 6 {
            Some(QType::SOA)
        } else if v == 7 {
            Some(QType::MB)
        } else if v == 8 {
            Some(QType::MG)
        } else if v == 9 {
            Some(QType::MR)
        } else if v == 10 {
            Some(QType::NULL)
        } else if v == 11 {
            Some(QType::WKS)
        } else if v == 12 {
            Some(QType::PTR)
        } else if v == 13 {
            Some(QType::HINFO)
        } else if v == 14 {
            Some(QType::MINFO)
        } else if v == 15 {
            Some(QType::MX)
        } else if v == 16 {
            Some(QType::TXT)
        } else if v == 17 {
            Some(QType::RP)
        } else if v == 18 {
            Some(QType::AFSDB)
        } else if v == 19 {
            Some(QType::X25)
        } else if v == 20 {
            Some(QType::ISDN)
        } else if v == 21 {
            Some(QType::RT)
        } else if v == 22 {
            Some(QType::NSAP)
        } else if v == 23 {
            Some(QType::NSAPPTR)
        } else if v == 24 {
            Some(QType::SIG)
        } else if v == 25 {
            Some(QType::KEY)
        } else if v == 26 {
            Some(QType::PX)
        } else if v == 27 {
            Some(QType::GPOS)
        } else if v == 28 {
            Some(QType::AAAA)
        } else if v == 29 {
            Some(QType::LOC)
        } else if v == 30 {
            Some(QType::NXT)
        } else if v == 31 {
            Some(QType::EID)
        } else if v == 32 {
            Some(QType::NIMLOC)
        } else if v == 33 {
            Some(QType::SRV)
        } else if v == 34 {
            Some(QType::ATMA)
        } else if v == 35 {
            Some(QType::NAPTR)
        } else if v == 36 {
            Some(QType::KX)
        } else if v == 37 {
            Some(QType::CERT)
        } else if v == 38 {
            Some(QType::A6)
        } else if v == 39 {
            Some(QType::DNAME)
        } else if v == 40 {
            Some(QType::SINK)
        } else if v == 41 {
            Some(QType::OPT)
        } else if v == 42 {
            Some(QType::APL)
        } else if v == 43 {
            Some(QType::DS)
        } else if v == 44 {
            Some(QType::SSHFP)
        } else if v == 45 {
            Some(QType::IPSECKEY)
        } else if v == 46 {
            Some(QType::RRSIG)
        } else if v == 47 {
            Some(QType::NSEC)
        } else if v == 48 {
            Some(QType::DNSKEY)
        } else if v == 49 {
            Some(QType::DHCID)
        } else if v == 50 {
            Some(QType::NSEC3)
        } else if v == 51 {
            Some(QType::NSEC3PARAM)
        } else if v == 52 {
            Some(QType::TLSA)
        } else if v == 53 {
            Some(QType::SMIMEA)
        } else if v == 54 {
            Some(QType::Unassigned)
        } else if v == 55 {
            Some(QType::HIP)
        } else if v == 56 {
            Some(QType::NINFO)
        } else if v == 57 {
            Some(QType::RKEY)
        } else if v == 58 {
            Some(QType::TALINK)
        } else if v == 59 {
            Some(QType::CDS)
        } else if v == 60 {
            Some(QType::CDNSKEY)
        } else if v == 61 {
            Some(QType::OPENPGPKEY)
        } else if v == 62 {
            Some(QType::CSYNC)
        } else if v == 63 {
            Some(QType::ZONEMD)
        } else if v == 64 {
            Some(QType::SVCB)
        } else if v == 65 {
            Some(QType::HTTPS)
        } else if v == 99 {
            Some(QType::SPF)
        } else if v == 100 {
            Some(QType::UINFO)
        } else if v == 101 {
            Some(QType::UID)
        } else if v == 102 {
            Some(QType::GID)
        } else if v == 103 {
            Some(QType::UNSPEC)
        } else if v == 104 {
            Some(QType::NID)
        } else if v == 105 {
            Some(QType::L32)
        } else if v == 106 {
            Some(QType::L64)
        } else if v == 107 {
            Some(QType::LP)
        } else if v == 108 {
            Some(QType::EUI48)
        } else if v == 109 {
            Some(QType::EUI64)
        } else if v == 249 {
            Some(QType::TKEY)
        } else if v == 250 {
            Some(QType::TSIG)
        } else if v == 251 {
            Some(QType::IXFR)
        } else if v == 252 {
            Some(QType::AXFR)
        } else if v == 253 {
            Some(QType::MAILB)
        } else if v == 254 {
            Some(QType::MAILA)
        } else if v == 255 {
            Some(QType::ANY)
        } else if v == 256 {
            Some(QType::URI)
        } else if v == 257 {
            Some(QType::CAA)
        } else if v == 258 {
            Some(QType::AVC)
        } else if v == 259 {
            Some(QType::DOA)
        } else if v == 260 {
            Some(QType::AMTRELAY)
        } else if v == 32768 {
            Some(QType::TA)
        } else if v == 32769 {
            Some(QType::DLV)
        } else {
            None
        }
    }

    /// The numeric code of the variant.
    pub fn value(&self) -> (r: u16)
        ensures
            r == self.spec_value(),
    {
        match self {
            QType::A => 1,
            QType::NS => 2,
            QType::MD => 3,
            QType::MF => 4,
            QType::CNAME => 5,
            QType::SOA => 6,
            QType::MB => 7,
            QType::MG => 8,
            QType::MR => 9,
            QType::NULL => 10,
            QType::WKS => 11,
            QType::PTR => 12,
            QType::HINFO => 13,
            QType::MINFO => 14,
            QType::MX => 15,
            QType::TXT => 16,
            QType::RP => 17,
            QType::AFSDB => 18,
            QType::X25 => 19,
            QType::ISDN => 20,
            QType::RT => 21,
            QType::NSAP => 22,
            QType::NSAPPTR => 23,
            QType::SIG => 24,
            QType::KEY => 25,
            QType::PX => 26,
            QType::GPOS => 27,
            QType::AAAA => 28,
            QType::LOC => 29,
            QType::NXT => 30,
            QType::EID => 31,
            QType::NIMLOC => 32,
            QType::SRV => 33,
            QType::ATMA => 34,
            QType::NAPTR => 35,
            QType::KX => 36,
            QType::CERT => 37,
            QType::A6 => 38,
            QType::DNAME => 39,
            QType::SINK => 40,
            QType::OPT => 41,
            QType::APL => 42,
            QType::DS => 43,
            QType::SSHFP => 44,
            QType::IPSECKEY => 45,
            QType::RRSIG => 46,
            QType::NSEC => 47,
            QType::DNSKEY => 48,
            QType::DHCID => 49,
            QType::NSEC3 => 50,
            QType::NSEC3PARAM => 51,
            QType::TLSA => 52,
            QType::SMIMEA => 53,
            QType::Unassigned => 54,
            QType::HIP => 55,
            QType::NINFO => 56,
            QType::RKEY => 57,
            QType::TALINK => 58,
            QType::CDS => 59,
            QType::CDNSKEY => 60,
            QType::OPENPGPKEY => 61,
            QType::CSYNC => 62,
            QType::ZONEMD => 63,
            QType::SVCB => 64,
            QType::HTTPS => 65,
            QType::SPF => 99,
            QType::UINFO => 100,
            QType::UID => 101,
            QType::GID => 102,
            QType::UNSPEC => 103,
            QType::NID => 104,
            QType::L32 => 105,
            QType::L64 => 106,
            QType::LP => 107,
            QType::EUI48 => 108,
            QType::EUI64 => 109,
            QType::TKEY => 249,
            QType::TSIG => 250,
            QType::IXFR => 251,
            QType::AXFR => 252,
            QType::MAILB => 253,
            QType::MAILA => 254,
            QType::ANY => 255,
            QType::URI => 256,
            QType::CAA => 257,
            QType::AVC => 258,
            QType::DOA => 259,
            QType::AMTRELAY => 260,
            QType::TA => 32768,
            QType::DLV => 32769,
        }
    }

    /// The variant whose code is `value`; `UnknownEnumValue` when none is declared.
    pub fn try_from(value: u16) -> (r: DNSResult<QType>)
        ensures
            match Self::from_value(value) {
                Some(t) => r == Ok::<QType, DNSError>(t),
                None => r == Err::<QType, DNSError>(DNSError::UnknownEnumValue { kind: EnumKind::QType, value }),
            },
    {
        match value {
            1 => Ok(QType::A),
            2 => Ok(QType::NS),
            3 => Ok(QType::MD),
            4 => Ok(QType::MF),
            5 => Ok(QType::CNAME),
            6 => Ok(QType::SOA),
            7 => Ok(QType::MB),
            8 => Ok(QType::MG),
            9 => Ok(QType::MR),
            10 => Ok(QType::NULL),
            11 => Ok(QType::WKS),
            12 => Ok(QType::PTR),
            13 => Ok(QType::HINFO),
            14 => Ok(QType::MINFO),
            15 => Ok(QType::MX),
            16 => Ok(QType::TXT),
            17 => Ok(QType::RP),
            18 => Ok(QType::AFSDB),
            19 => Ok(QType::X25),
            20 => Ok(QType::ISDN),
            21 => Ok(QType::RT),
            22 => Ok(QType::NSAP),
            23 => Ok(QType::NSAPPTR),
            24 => Ok(QType::SIG),
            25 => Ok(QType::KEY),
            26 => Ok(QType::PX),
            27 => Ok(QType::GPOS),
            28 => Ok(QType::AAAA),
            29 => Ok(QType::LOC),
            30 => Ok(QType::NXT),
            31 => Ok(QType::EID),
            32 => Ok(QType::NIMLOC),
            33 => Ok(QType::SRV),
            34 => Ok(QType::ATMA),
            35 => Ok(QType::NAPTR),
            36 => Ok(QType::KX),
            37 => Ok(QType::CERT),
            38 => Ok(QType::A6),
            39 => Ok(QType::DNAME),
            40 => Ok(QType::SINK),
            41 => Ok(QType::OPT),
            42 => Ok(QType::APL),
            43 => Ok(QType::DS),
            44 => Ok(QType::SSHFP),
            45 => Ok(QType::IPSECKEY),
            46 => Ok(QType::RRSIG),
            47 => Ok(QType::NSEC),
            48 => Ok(QType::DNSKEY),
            49 => Ok(QType::DHCID),
            50 => Ok(QType::NSEC3),
            51 => Ok(QType::NSEC3PARAM),
            52 => Ok(QType::TLSA),
            53 => Ok(QType::SMIMEA),
            54 => Ok(QType::Unassigned),
            55 => Ok(QType::HIP),
            56 => Ok(QType::NINFO),
            57 => Ok(QType::RKEY),
            58 => Ok(QType::TALINK),
            59 => Ok(QType::CDS),
            60 => Ok(QType::CDNSKEY),
            61 => Ok(QType::OPENPGPKEY),
            62 => Ok(QType::CSYNC),
            63 => Ok(QType::ZONEMD),
            64 => Ok(QType::SVCB),
            65 => Ok(QType::HTTPS),
            99 => Ok(QType::SPF),
            100 => Ok(QType::UINFO),
            101 => Ok(QType::UID),
            102 => Ok(QType::GID),
            103 => Ok(QType::UNSPEC),
            104 => Ok(QType::NID),
            105 => Ok(QType::L32),
            106 => Ok(QType::L64),
            107 => Ok(QType::LP),
            108 => Ok(QType::EUI48),
            109 => Ok(QType::EUI64),
            249 => Ok(QType::TKEY),
            250 => Ok(QType::TSIG),
            251 => Ok(QType::IXFR),
            252 => Ok(QType::AXFR),
            253 => Ok(QType::MAILB),
            254 => Ok(QType::MAILA),
            255 => Ok(QType::ANY),
            256 => Ok(QType::URI),
            257 => Ok(QType::CAA),
            258 => Ok(QType::AVC),
            259 => Ok(QType::DOA),
            260 => Ok(QType::AMTRELAY),
            32768 => Ok(QType::TA),
            32769 => Ok(QType::DLV),
            _ => Err(DNSError::UnknownEnumValue { kind: EnumKind::QType, value }),
        }
    }

    /// The variant whose name of 1 octets is `s`, if one is.
    pub open spec fn from_name_of_len_1(s: Seq<u8>) -> Option<QType> {
        if s == seq![65u8] {
            Some(QType::A)
        } else {
            None
        }
    }

    /// The variant whose name of 2 octets is `s`, if one is.
    pub open spec fn from_name_of_len_2(s: Seq<u8>) -> Option<QType> {
        if s == seq![78u8, 83u8] {
            Some(QType::NS)
        } else if s == seq![77u8, 68u8] {
            Some(QType::MD)
        } else if s == seq![77u8, 70u8] {
            Some(QType::MF)
        } else if s == seq![77u8, 66u8] {
            Some(QType::MB)
        } else if s == seq![77u8, 71u8] {
            Some(QType::MG)
        } else if s == seq![77u8, 82u8] {
            Some(QType::MR)
        } else if s == seq![77u8, 88u8] {
            Some(QType::MX)
        } else if s == seq![82u8, 80u8] {
            Some(QType::RP)
        } else if s == seq![82u8, 84u8] {
            Some(QType::RT)
        } else if s == seq![80u8, 88u8] {
            Some(QType::PX)
        } else if s == seq![75u8, 88u8] {
            Some(QType::KX)
        } else if s == seq![65u8, 54u8] {
            Some(QType::A6)
        } else if s == seq![68u8, 83u8] {
            Some(QType::DS)
        } else if s == seq![76u8, 80u8] {
            Some(QType::LP)
        } else if s == seq![84u8, 65u8] {
            Some(QType::TA)
        } else {
            None
        }
    }

    /// The variant whose name of 3 octets is `s`, if one is.
    pub open spec fn from_name_of_len_3(s: Seq<u8>) -> Option<QType> {
        if s == seq![83u8, 79u8, 65u8] {
            Some(QType::SOA)
        } else if s == seq![87u8, 75u8, 83u8] {
            Some(QType::WKS)
        } else if s == seq![80u8, 84u8, 82u8] {
            Some(QType::PTR)
        } else if s == seq![84u8, 88u8, 84u8] {
            Some(QType::TXT)
        } else if s == seq![88u8, 50u8, 53u8] {
            Some(QType::X25)
        } else if s == seq![83u8, 73u8, 71u8] {
            Some(QType::SIG)
        } else if s == seq![75u8, 69u8, 89u8] {
            Some(QType::KEY)
        } else if s == seq![76u8, 79u8, 67u8] {
            Some(QType::LOC)
        } else if s == seq![78u8, 88u8, 84u8] {
            Some(QType::NXT)
        } else if s == seq![69u8, 73u8, 68u8] {
            Some(QType::EID)
        } else if s == seq![83u8, 82u8, 86u8] {
            Some(QType::SRV)
        } else if s == seq![79u8, 80u8, 84u8] {
            Some(QType::OPT)
        } else if s == seq![65u8, 80u8, 76u8] {
            Some(QType::APL)
        } else if s == seq![72u8, 73u8, 80u8] {
            Some(QType::HIP)
        } else if s == seq![67u8, 68u8, 83u8] {
            Some(QType::CDS)
        } else if s == seq![83u8, 80u8, 70u8] {
            Some(QType::SPF)
        } else if s == seq![85u8, 73u8, 68u8] {
            Some(QType::UID)
        } else if s == seq![71u8, 73u8, 68u8] {
            Some(QType::GID)
        } else if s == seq![78u8, 73u8, 68u8] {
            Some(QType::NID)
        } else if s == seq![76u8, 51u8, 50u8] {
            Some(QType::L32)
        } else if s == seq![76u8, 54u8, 52u8] {
            Some(QType::L64)
        } else if s == seq![65u8, 78u8, 89u8] {
            Some(QType::ANY)
        } else if s == seq![85u8, 82u8, 73u8] {
            Some(QType::URI)
        } else if s == seq![67u8, 65u8, 65u8] {
            Some(QType::CAA)
        } else if s == seq![65u8, 86u8, 67u8] {
            Some(QType::AVC)
        } else if s == seq![68u8, 79u8, 65u8] {
            Some(QType::DOA)
        } else if s == seq![68u8, 76u8, 86u8] {
            Some(QType::DLV)
        } else {
            None
        }
    }

    /// The variant whose name of 4 octets is `s`, if one is.
    pub open spec fn from_name_of_len_4(s: Seq<u8>) -> Option<QType> {
        if s == seq![78u8, 85u8, 76u8, 76u8] {
            Some(QType::NULL)
        } else if s == seq![73u8, 83u8, 68u8, 78u8] {
            Some(QType::ISDN)
        } else if s == seq![78u8, 83u8, 65u8, 80u8] {
            Some(QType::NSAP)
        } else if s == seq![71u8, 80u8, 79u8, 83u8] {
            Some(QType::GPOS)
        } else if s == seq![65u8, 65u8, 65u8, 65u8] {
            Some(QType::AAAA)
        } else if s == seq![65u8, 84u8, 77u8, 65u8] {
            Some(QType::ATMA)
        } else if s == seq![67u8, 69u8, 82u8, 84u8] {
            Some(QType::CERT)
        } else if s == seq![83u8, 73u8, 78u8, 75u8] {
            Some(QType::SINK)
        } else if s == seq![78u8, 83u8, 69u8, 67u8] {
            Some(QType::NSEC)
        } else if s == seq![84u8, 76u8, 83u8, 65u8] {
            Some(QType::TLSA)
        } else if s == seq![82u8, 75u8, 69u8, 89u8] {
            Some(QType::RKEY)
        } else if s == seq![83u8, 86u8, 67u8, 66u8] {
            Some(QType::SVCB)
        } else if s == seq![84u8, 75u8, 69u8, 89u8] {
            Some(QType::TKEY)
        } else if s == seq![84u8, 83u8, 73u8, 71u8] {
            Some(QType::TSIG)
        } else if s == seq![73u8, 88u8, 70u8, 82u8] {
            Some(QType::IXFR)
        } else if s == seq![65u8, 88u8, 70u8, 82u8] {
            Some(QType::AXFR)
        } else {
            None
        }
    }

    /// The variant whose name of 5 octets is `s`, if one is.
    pub open spec fn from_name_of_len_5(s: Seq<u8>) -> Option<QType> {
        if s == seq![67u8, 78u8, 65u8, 77u8, 69u8] {
            Some(QType::CNAME)
        } else if s == seq![72u8, 73u8, 78u8, 70u8, 79u8] {
            Some(QType::HINFO)
        } else if s == seq![77u8, 73u8, 78u8, 70u8, 79u8] {
            Some(QType::MINFO)
        } else if s == seq![65u8, 70u8, 83u8, 68u8, 66u8] {
            Some(QType::AFSDB)
        } else if s == seq![78u8, 65u8, 80u8, 84u8, 82u8] {
            Some(QType::NAPTR)
        } else if s == seq![68u8, 78u8, 65u8, 77u8, 69u8] {
            Some(QType::DNAME)
        } else if s == seq![83u8, 83u8, 72u8, 70u8, 80u8] {
            Some(QType::SSHFP)
        } else if s == seq![82u8, 82u8, 83u8, 73u8, 71u8] {
            Some(QType::RRSIG)
        } else if s == seq![68u8, 72u8, 67u8, 73u8, 68u8] {
            Some(QType::DHCID)
        } else if s == seq![78u8, 83u8, 69u8, 67u8, 51u8] {
            Some(QType::NSEC3)
        } else if s == seq![78u8, 73u8, 78u8, 70u8, 79u8] {
            Some(QType::NINFO)
        } else if s == seq![67u8, 83u8, 89u8, 78u8, 67u8] {
            Some(QType::CSYNC)
        } else if s == seq![72u8, 84u8, 84u8, 80u8, 83u8] {
            Some(QType::HTTPS)
        } else if s == seq![85u8, 73u8, 78u8, 70u8, 79u8] {
            Some(QType::UINFO)
        } else if s == seq![69u8, 85u8, 73u8, 52u8, 56u8] {
            Some(QType::EUI48)
        } else if s == seq![69u8, 85u8, 73u8, 54u8, 52u8] {
            Some(QType::EUI64)
        } else if s == seq![77u8, 65u8, 73u8, 76u8, 66u8] {
            Some(QType::MAILB)
        } else if s == seq![77u8, 65u8, 73u8, 76u8, 65u8] {
            Some(QType::MAILA)
        } else {
            None
        }
    }

    /// The variant whose name of 6 octets is `s`, if one is.
    pub open spec fn from_name_of_len_6(s: Seq<u8>) -> Option<QType> {
        if s == seq![78u8, 73u8, 77u8, 76u8, 79u8, 67u8] {
            Some(QType::NIMLOC)
        } else if s == seq![68u8, 78u8, 83u8, 75u8, 69u8, 89u8] {
            Some(QType::DNSKEY)
        } else if s == seq![83u8, 77u8, 73u8, 77u8, 69u8, 65u8] {
            Some(QType::SMIMEA)
        } else if s == seq![84u8, 65u8, 76u8, 73u8, 78u8, 75u8] {
            Some(QType::TALINK)
        } else if s == seq![90u8, 79u8, 78u8, 69u8, 77u8, 68u8] {
            Some(QType::ZONEMD)
        } else if s == seq![85u8, 78u8, 83u8, 80u8, 69u8, 67u8] {
            Some(QType::UNSPEC)
        } else {
            None
        }
    }

    /// The variant whose name of 7 octets is `s`, if one is.
    pub open spec fn from_name_of_len_7(s: Seq<u8>) -> Option<QType> {
        if s == seq![78u8, 83u8, 65u8, 80u8, 80u8, 84u8, 82u8] {
            Some(QType::NSAPPTR)
        } else if s == seq![67u8, 68u8, 78u8, 83u8, 75u8, 69u8, 89u8] {
            Some(QType::CDNSKEY)
        } else {
            None
        }
    }

    /// The variant whose name of 8 octets is `s`, if one is.
    pub open spec fn from_name_of_len_8(s: Seq<u8>) -> Option<QType> {
        if s == seq![73u8, 80u8, 83u8, 69u8, 67u8, 75u8, 69u8, 89u8] {
            Some(QType::IPSECKEY)
        } else if s == seq![65u8, 77u8, 84u8, 82u8, 69u8, 76u8, 65u8, 89u8] {
            Some(QType::AMTRELAY)
        } else {
            None
        }
    }

    /// The variant whose name of 10 octets is `s`, if one is.
    pub open spec fn from_name_of_len_10(s: Seq<u8>) -> Option<QType> {
        if s == seq![78u8, 83u8, 69u8, 67u8, 51u8, 80u8, 65u8, 82u8, 65u8, 77u8] {
            Some(QType::NSEC3PARAM)
        } else if s == seq![85u8, 110u8, 97u8, 115u8, 115u8, 105u8, 103u8, 110u8, 101u8, 100u8] {
            Some(QType::Unassigned)
        } else if s == seq![79u8, 80u8, 69u8, 78u8, 80u8, 71u8, 80u8, 75u8, 69u8, 89u8] {
            Some(QType::OPENPGPKEY)
        } else {
            None
        }
    }

    /// The variant whose name is `s`, if one is.
    pub open spec fn from_name_spec(s: Seq<u8>) -> Option<QType> {
        if s.len() == 1 {
            Self::from_name_of_len_1(s)
        } else if s.len() == 2 {
            Self::from_name_of_len_2(s)
        } else if s.len() == 3 {
            Self::from_name_of_len_3(s)
        } else if s.len() == 4 {
            Self::from_name_of_len_4(s)
        } else if s.len() == 5 {
            Self::from_name_of_len_5(s)
        } else if s.len() == 6 {
            Self::from_name_of_len_6(s)
        } else if s.len() == 7 {
            Self::from_name_of_len_7(s)
        } else if s.len() == 8 {
            Self::from_name_of_len_8(s)
        } else if s.len() == 10 {
            Self::from_name_of_len_10(s)
        } else {
            None
        }
    }

    fn lookup_name_of_len_1(b: &[u8]) -> (r: Option<QType>)
        requires
            b@.len() == 1,
        ensures
            r == Self::from_name_of_len_1(b@),
    {
        let n = b.len();
        if n == 1 && b[0] == 65 {
            assert(b@ =~= seq![65u8]);
            return Some(QType::A);
        }
        None
    }

    fn lookup_name_of_len_2(b: &[u8]) -> (r: Option<QType>)
        requires
            b@.len() == 2,
        ensures
            r == Self::from_name_of_len_2(b@),
    {
        let n = b.len();
        if n == 2 && b[0] == 78 && b[1] == 83 {
            assert(b@ =~= seq![78u8, 83u8]);
            return Some(QType::NS);
        }
        if n == 2 && b[0] == 77 && b[1] == 68 {
            assert(b@ =~= seq![77u8, 68u8]);
            return Some(QType::MD);
        }
        if n == 2 && b[0] == 77 && b[1] == 70 {
            assert(b@ =~= seq![77u8, 70u8]);
            return Some(QType::MF);
        }
        if n == 2 && b[0] == 77 && b[1] == 66 {
            assert(b@ =~= seq![77u8, 66u8]);
            return Some(QType::MB);
        }
        if n == 2 && b[0] == 77 && b[1] == 71 {
            assert(b@ =~= seq![77u8, 71u8]);
            return Some(QType::MG);
        }
        if n == 2 && b[0] == 77 && b[1] == 82 {
            assert(b@ =~= seq![77u8, 82u8]);
            return Some(QType::MR);
        }
        if n == 2 && b[0] == 77 && b[1] == 88 {
            assert(b@ =~= seq![77u8, 88u8]);
            return Some(QType::MX);
        }
        if n == 2 && b[0] == 82 && b[1] == 80 {
            assert(b@ =~= seq![82u8, 80u8]);
            return Some(QType::RP);
        }
        if n == 2 && b[0] == 82 && b[1] == 84 {
            assert(b@ =~= seq![82u8, 84u8]);
            return Some(QType::RT);
        }
        if n == 2 && b[0] == 80 && b[1] == 88 {
            assert(b@ =~= seq![80u8, 88u8]);
            return Some(QType::PX);
        }
        if n == 2 && b[0] == 75 && b[1] == 88 {
            assert(b@ =~= seq![75u8, 88u8]);
            return Some(QType::KX);
        }
        if n == 2 && b[0] == 65 && b[1] == 54 {
            assert(b@ =~= seq![65u8, 54u8]);
            return Some(QType::A6);
        }
        if n == 2 && b[0] == 68 && b[1] == 83 {
            assert(b@ =~= seq![68u8, 83u8]);
            return Some(QType::DS);
        }
        if n == 2 && b[0] == 76 && b[1] == 80 {
            assert(b@ =~= seq![76u8, 80u8]);
            return Some(QType::LP);
        }
        if n == 2 && b[0] == 84 && b[1] == 65 {
            assert(b@ =~= seq![84u8, 65u8]);
            return Some(QType::TA);
        }
        None
    }

    fn lookup_name_of_len_3(b: &[u8]) -> (r: Option<QType>)
        requires
            b@.len() == 3,
        ensures
            r == Self::from_name_of_len_3(b@),
    {
        let n = b.len();
        if n == 3 && b[0] == 83 && b[1] == 79 && b[2] == 65 {
            assert(b@ =~= seq![83u8, 79u8, 65u8]);
            return Some(QType::SOA);
        }
        if n == 3 && b[0] == 87 && b[1] == 75 && b[2] == 83 {
            assert(b@ =~= seq![87u8, 75u8, 83u8]);
            return Some(QType::WKS);
        }
        if n == 3 && b[0] == 80 && b[1] == 84 && b[2] == 82 {
            assert(b@ =~= seq![80u8, 84u8, 82u8]);
            return Some(QType::PTR);
        }
        if n == 3 && b[0] == 84 && b[1] == 88 && b[2] == 84 {
            assert(b@ =~= seq![84u8, 88u8, 84u8]);
            return Some(QType::TXT);
        }
        if n == 3 && b[0] == 88 && b[1] == 50 && b[2] == 53 {
            assert(b@ =~= seq![88u8, 50u8, 53u8]);
            return Some(QType::X25);
        }
        if n == 3 && b[0] == 83 && b[1] == 73 && b[2] == 71 {
            assert(b@ =~= seq![83u8, 73u8, 71u8]);
            return Some(QType::SIG);
        }
        if n == 3 && b[0] == 75 && b[1] == 69 && b[2] == 89 {
            assert(b@ =~= seq![75u8, 69u8, 89u8]);
            return Some(QType::KEY);
        }
        if n == 3 && b[0] == 76 && b[1] == 79 && b[2] == 67 {
            assert(b@ =~= seq![76u8, 79u8, 67u8]);
            return Some(QType::LOC);
        }
        if n == 3 && b[0] == 78 && b[1] == 88 && b[2] == 84 {
            assert(b@ =~= seq![78u8, 88u8, 84u8]);
            return Some(QType::NXT);
        }
        if n == 3 && b[0] == 69 && b[1] == 73 && b[2] == 68 {
            assert(b@ =~= seq![69u8, 73u8, 68u8]);
            return Some(QType::EID);
        }
        if n == 3 && b[0] == 83 && b[1] == 82 && b[2] == 86 {
            assert(b@ =~= seq![83u8, 82u8, 86u8]);
            return Some(QType::SRV);
        }
        if n == 3 && b[0] == 79 && b[1] == 80 && b[2] == 84 {
            assert(b@ =~= seq![79u8, 80u8, 84u8]);
            return Some(QType::OPT);
        }
        if n == 3 && b[0] == 65 && b[1] == 80 && b[2] == 76 {
            assert(b@ =~= seq![65u8, 80u8, 76u8]);
            return Some(QType::APL);
        }
        if n == 3 && b[0] == 72 && b[1] == 73 && b[2] == 80 {
            assert(b@ =~= seq![72u8, 73u8, 80u8]);
            return Some(QType::HIP);
        }
        if n == 3 && b[0] == 67 && b[1] == 68 && b[2] == 83 {
            assert(b@ =~= seq![67u8, 68u8, 83u8]);
            return Some(QType::CDS);
        }
        if n == 3 && b[0] == 83 && b[1] == 80 && b[2] == 70 {
            assert(b@ =~= seq![83u8, 80u8, 70u8]);
            return Some(QType::SPF);
        }
        if n == 3 && b[0] == 85 && b[1] == 73 && b[2] == 68 {
            assert(b@ =~= seq![85u8, 73u8, 68u8]);
            return Some(QType::UID);
        }
        if n == 3 && b[0] == 71 && b[1] == 73 && b[2] == 68 {
            assert(b@ =~= seq![71u8, 73u8, 68u8]);
            return Some(QType::GID);
        }
        if n == 3 && b[0] == 78 && b[1] == 73 && b[2] == 68 {
            assert(b@ =~= seq![78u8, 73u8, 68u8]);
            return Some(QType::NID);
        }
        if n == 3 && b[0] == 76 && b[1] == 51 && b[2] == 50 {
            assert(b@ =~= seq![76u8, 51u8, 50u8]);
            return Some(QType::L32);
        }
        if n == 3 && b[0] == 76 && b[1] == 54 && b[2] == 52 {
            assert(b@ =~= seq![76u8, 54u8, 52u8]);
            return Some(QType::L64);
        }
        if n == 3 && b[0] == 65 && b[1] == 78 && b[2] == 89 {
            assert(b@ =~= seq![65u8, 78u8, 89u8]);
            return Some(QType::ANY);
        }
        if n == 3 && b[0] == 85 && b[1] == 82 && b[2] == 73 {
            assert(b@ =~= seq![85u8, 82u8, 73u8]);
            return Some(QType::URI);
        }
        if n == 3 && b[0] == 67 && b[1] == 65 && b[2] == 65 {
            assert(b@ =~= seq![67u8, 65u8, 65u8]);
            return Some(QType::CAA);
        }
        if n == 3 && b[0] == 65 && b[1] == 86 && b[2] == 67 {
            assert(b@ =~= seq![65u8, 86u8, 67u8]);
            return Some(QType::AVC);
        }
        if n == 3 && b[0] == 68 && b[1] == 79 && b[2] == 65 {
            assert(b@ =~= seq![68u8, 79u8, 65u8]);
            return Some(QType::DOA);
        }
        if n == 3 && b[0] == 68 && b[1] == 76 && b[2] == 86 {
            assert(b@ =~= seq![68u8, 76u8, 86u8]);
            return Some(QType::DLV);
        }
        None
    }

    fn lookup_name_of_len_4(b: &[u8]) -> (r: Option<QType>)
        requires
            b@.len() == 4,
        ensures
            r == Self::from_name_of_len_4(b@),
    {
        let n = b.len();
        if n == 4 && b[0] == 78 && b[1] == 85 && b[2] == 76 && b[3] == 76 {
            assert(b@ =~= seq![78u8, 85u8, 76u8, 76u8]);
            return Some(QType::NULL);
        }
        if n == 4 && b[0] == 73 && b[1] == 83 && b[2] == 68 && b[3] == 78 {
            assert(b@ =~= seq![73u8, 83u8, 68u8, 78u8]);
            return Some(QType::ISDN);
        }
        if n == 4 && b[0] == 78 && b[1] == 83 && b[2] == 65 && b[3] == 80 {
            assert(b@ =~= seq![78u8, 83u8, 65u8, 80u8]);
            return Some(QType::NSAP);
        }
        if n == 4 && b[0] == 71 && b[1] == 80 && b[2] == 79 && b[3] == 83 {
            assert(b@ =~= seq![71u8, 80u8, 79u8, 83u8]);
            return Some(QType::GPOS);
        }
        if n == 4 && b[0] == 65 && b[1] == 65 && b[2] == 65 && b[3] == 65 {
            assert(b@ =~= seq![65u8, 65u8, 65u8, 65u8]);
            return Some(QType::AAAA);
        }
        if n == 4 && b[0] == 65 && b[1] == 84 && b[2] == 77 && b[3] == 65 {
            assert(b@ =~= seq![65u8, 84u8, 77u8, 65u8]);
            return Some(QType::ATMA);
        }
        if n == 4 && b[0] == 67 && b[1] == 69 && b[2] == 82 && b[3] == 84 {
            assert(b@ =~= seq![67u8, 69u8, 82u8, 84u8]);
            return Some(QType::CERT);
        }
        if n == 4 && b[0] == 83 && b[1] == 73 && b[2] == 78 && b[3] == 75 {
            assert(b@ =~= seq![83u8, 73u8, 78u8, 75u8]);
            return Some(QType::SINK);
        }
        if n == 4 && b[0] == 78 && b[1] == 83 && b[2] == 69 && b[3] == 67 {
            assert(b@ =~= seq![78u8, 83u8, 69u8, 67u8]);
            return Some(QType::NSEC);
        }
        if n == 4 && b[0] == 84 && b[1] == 76 && b[2] == 83 && b[3] == 65 {
            assert(b@ =~= seq![84u8, 76u8, 83u8, 65u8]);
            return Some(QType::TLSA);
        }
        if n == 4 && b[0] == 82 && b[1] == 75 && b[2] == 69 && b[3] == 89 {
            assert(b@ =~= seq![82u8, 75u8, 69u8, 89u8]);
            return Some(QType::RKEY);
        }
        if n == 4 && b[0] == 83 && b[1] == 86 && b[2] == 67 && b[3] == 66 {
            assert(b@ =~= seq![83u8, 86u8, 67u8, 66u8]);
            return Some(QType::SVCB);
        }
        if n == 4 && b[0] == 84 && b[1] == 75 && b[2] == 69 && b[3] == 89 {
            assert(b@ =~= seq![84u8, 75u8, 69u8, 89u8]);
            return Some(QType::TKEY);
        }
        if n == 4 && b[0] == 84 && b[1] == 83 && b[2] == 73 && b[3] == 71 {
            assert(b@ =~= seq![84u8, 83u8, 73u8, 71u8]);
            return Some(QType::TSIG);
        }
        if n == 4 && b[0] == 73 && b[1] == 88 && b[2] == 70 && b[3] == 82 {
            assert(b@ =~= seq![73u8, 88u8, 70u8, 82u8]);
            return Some(QType::IXFR);
        }
        if n == 4 && b[0] == 65 && b[1] == 88 && b[2] == 70 && b[3] == 82 {
            assert(b@ =~= seq![65u8, 88u8, 70u8, 82u8]);
            return Some(QType::AXFR);
        }
        None
    }

    fn lookup_name_of_len_5(b: &[u8]) -> (r: Option<QType>)
        requires
            b@.len() == 5,
        ensures
            r == Self::from_name_of_len_5(b@),
    {
        let n = b.len();
        if n == 5 && b[0] == 67 && b[1] == 78 && b[2] == 65 && b[3] == 77 && b[4] == 69 {
            assert(b@ =~= seq![67u8, 78u8, 65u8, 77u8, 69u8]);
            return Some(QType::CNAME);
        }
        if n == 5 && b[0] == 72 && b[1] == 73 && b[2] == 78 && b[3] == 70 && b[4] == 79 {
            assert(b@ =~= seq![72u8, 73u8, 78u8, 70u8, 79u8]);
            return Some(QType::HINFO);
        }
        if n == 5 && b[0] == 77 && b[1] == 73 && b[2] == 78 && b[3] == 70 && b[4] == 79 {
            assert(b@ =~= seq![77u8, 73u8, 78u8, 70u8, 79u8]);
            return Some(QType::MINFO);
        }
        if n == 5 && b[0] == 65 && b[1] == 70 && b[2] == 83 && b[3] == 68 && b[4] == 66 {
            assert(b@ =~= seq![65u8, 70u8, 83u8, 68u8, 66u8]);
            return Some(QType::AFSDB);
        }
        if n == 5 && b[0] == 78 && b[1] == 65 && b[2] == 80 && b[3] == 84 && b[4] == 82 {
            assert(b@ =~= seq![78u8, 65u8, 80u8, 84u8, 82u8]);
            return Some(QType::NAPTR);
        }
        if n == 5 && b[0] == 68 && b[1] == 78 && b[2] == 65 && b[3] == 77 && b[4] == 69 {
            assert(b@ =~= seq![68u8, 78u8, 65u8, 77u8, 69u8]);
            return Some(QType::DNAME);
        }
        if n == 5 && b[0] == 83 && b[1] == 83 && b[2] == 72 && b[3] == 70 && b[4] == 80 {
            assert(b@ =~= seq![83u8, 83u8, 72u8, 70u8, 80u8]);
            return Some(QType::SSHFP);
        }
        if n == 5 && b[0] == 82 && b[1] == 82 && b[2] == 83 && b[3] == 73 && b[4] == 71 {
            assert(b@ =~= seq![82u8, 82u8, 83u8, 73u8, 71u8]);
            return Some(QType::RRSIG);
        }
        if n == 5 && b[0] == 68 && b[1] == 72 && b[2] == 67 && b[3] == 73 && b[4] == 68 {
            assert(b@ =~= seq![68u8, 72u8, 67u8, 73u8, 68u8]);
            return Some(QType::DHCID);
        }
        if n == 5 && b[0] == 78 && b[1] == 83 && b[2] == 69 && b[3] == 67 && b[4] == 51 {
            assert(b@ =~= seq![78u8, 83u8, 69u8, 67u8, 51u8]);
            return Some(QType::NSEC3);
        }
        if n == 5 && b[0] == 78 && b[1] == 73 && b[2] == 78 && b[3] == 70 && b[4] == 79 {
            assert(b@ =~= seq![78u8, 73u8, 78u8, 70u8, 79u8]);
            return Some(QType::NINFO);
        }
        if n == 5 && b[0] == 67 && b[1] == 83 && b[2] == 89 && b[3] == 78 && b[4] == 67 {
            assert(b@ =~= seq![67u8, 83u8, 89u8, 78u8, 67u8]);
            return Some(QType::CSYNC);
        }
        if n == 5 && b[0] == 72 && b[1] == 84 && b[2] == 84 && b[3] == 80 && b[4] == 83 {
            assert(b@ =~= seq![72u8, 84u8, 84u8, 80u8, 83u8]);
            return Some(QType::HTTPS);
        }
        if n == 5 && b[0] == 85 && b[1] == 73 && b[2] == 78 && b[3] == 70 && b[4] == 79 {
            assert(b@ =~= seq![85u8, 73u8, 78u8, 70u8, 79u8]);
            return Some(QType::UINFO);
        }
        if n == 5 && b[0] == 69 && b[1] == 85 && b[2] == 73 && b[3] == 52 && b[4] == 56 {
            assert(b@ =~= seq![69u8, 85u8, 73u8, 52u8, 56u8]);
            return Some(QType::EUI48);
        }
        if n == 5 && b[0] == 69 && b[1] == 85 && b[2] == 73 && b[3] == 54 && b[4] == 52 {
            assert(b@ =~= seq![69u8, 85u8, 73u8, 54u8, 52u8]);
            return Some(QType::EUI64);
        }
        if n == 5 && b[0] == 77 && b[1] == 65 && b[2] == 73 && b[3] == 76 && b[4] == 66 {
            assert(b@ =~= seq![77u8, 65u8, 73u8, 76u8, 66u8]);
            return Some(QType::MAILB);
        }
        if n == 5 && b[0] == 77 && b[1] == 65 && b[2] == 73 && b[3] == 76 && b[4] == 65 {
            assert(b@ =~= seq![77u8, 65u8, 73u8, 76u8, 65u8]);
            return Some(QType::MAILA);
        }
        None
    }

    fn lookup_name_of_len_6(b: &[u8]) -> (r: Option<QType>)
        requires
            b@.len() == 6,
        ensures
            r == Self::from_name_of_len_6(b@),
    {
        let n = b.len();
        if n == 6 && b[0] == 78 && b[1] == 73 && b[2] == 77 && b[3] == 76 && b[4] == 79 && b[5] == 67 {
            assert(b@ =~= seq![78u8, 73u8, 77u8, 76u8, 79u8, 67u8]);
            return Some(QType::NIMLOC);
        }
        if n == 6 && b[0] == 68 && b[1] == 78 && b[2] == 83 && b[3] == 75 && b[4] == 69 && b[5] == 89 {
            assert(b@ =~= seq![68u8, 78u8, 83u8, 75u8, 69u8, 89u8]);
            return Some(QType::DNSKEY);
        }
        if n == 6 && b[0] == 83 && b[1] == 77 && b[2] == 73 && b[3] == 77 && b[4] == 69 && b[5] == 65 {
            assert(b@ =~= seq![83u8, 77u8, 73u8, 77u8, 69u8, 65u8]);
            return Some(QType::SMIMEA);
        }
        if n == 6 && b[0] == 84 && b[1] == 65 && b[2] == 76 && b[3] == 73 && b[4] == 78 && b[5] == 75 {
            assert(b@ =~= seq![84u8, 65u8, 76u8, 73u8, 78u8, 75u8]);
            return Some(QType::TALINK);
        }
        if n == 6 && b[0] == 90 && b[1] == 79 && b[2] == 78 && b[3] == 69 && b[4] == 77 && b[5] == 68 {
            assert(b@ =~= seq![90u8, 79u8, 78u8, 69u8, 77u8, 68u8]);
            return Some(QType::ZONEMD);
        }
        if n == 6 && b[0] == 85 && b[1] == 78 && b[2] == 83 && b[3] == 80 && b[4] == 69 && b[5] == 67 {
            assert(b@ =~= seq![85u8, 78u8, 83u8, 80u8, 69u8, 67u8]);
            return Some(QType::UNSPEC);
        }
        None
    }

    fn lookup_name_of_len_7(b: &[u8]) -> (r: Option<QType>)
        requires
            b@.len() == 7,
        ensures
            r == Self::from_name_of_len_7(b@),
    {
        let n = b.len();
        if n == 7 && b[0] == 78 && b[1] == 83 && b[2] == 65 && b[3] == 80 && b[4] == 80 && b[5] == 84 && b[6] == 82 {
            assert(b@ =~= seq![78u8, 83u8, 65u8, 80u8, 80u8, 84u8, 82u8]);
            return Some(QType::NSAPPTR);
        }
        if n == 7 && b[0] == 67 && b[1] == 68 && b[2] == 78 && b[3] == 83 && b[4] == 75 && b[5] == 69 && b[6] == 89 {
            assert(b@ =~= seq![67u8, 68u8, 78u8, 83u8, 75u8, 69u8, 89u8]);
            return Some(QType::CDNSKEY);
        }
        None
    }

    fn lookup_name_of_len_8(b: &[u8]) -> (r: Option<QType>)
        requires
            b@.len() == 8,
        ensures
            r == Self::from_name_of_len_8(b@),
    {
        let n = b.len();
        if n == 8 && b[0] == 73 && b[1] == 80 && b[2] == 83 && b[3] == 69 && b[4] == 67 && b[5] == 75 && b[6] == 69 && b[7] == 89 {
            assert(b@ =~= seq![73u8, 80u8, 83u8, 69u8, 67u8, 75u8, 69u8, 89u8]);
            return Some(QType::IPSECKEY);
        }
        if n == 8 && b[0] == 65 && b[1] == 77 && b[2] == 84 && b[3] == 82 && b[4] == 69 && b[5] == 76 && b[6] == 65 && b[7] == 89 {
            assert(b@ =~= seq![65u8, 77u8, 84u8, 82u8, 69u8, 76u8, 65u8, 89u8]);
            return Some(QType::AMTRELAY);
        }
        None
    }

    fn lookup_name_of_len_10(b: &[u8]) -> (r: Option<QType>)
        requires
            b@.len() == 10,
        ensures
            r == Self::from_name_of_len_10(b@),
    {
        let n = b.len();
        if n == 10 && b[0] == 78 && b[1] == 83 && b[2] == 69 && b[3] == 67 && b[4] == 51 && b[5] == 80 && b[6] == 65 && b[7] == 82 && b[8] == 65 && b[9] == 77 {
            assert(b@ =~= seq![78u8, 83u8, 69u8, 67u8, 51u8, 80u8, 65u8, 82u8, 65u8, 77u8]);
            return Some(QType::NSEC3PARAM);
        }
        if n == 10 && b[0] == 85 && b[1] == 110 && b[2] == 97 && b[3] == 115 && b[4] == 115 && b[5] == 105 && b[6] == 103 && b[7] == 110 && b[8] == 101 && b[9] == 100 {
            assert(b@ =~= seq![85u8, 110u8, 97u8, 115u8, 115u8, 105u8, 103u8, 110u8, 101u8, 100u8]);
            return Some(QType::Unassigned);
        }
        if n == 10 && b[0] == 79 && b[1] == 80 && b[2] == 69 && b[3] == 78 && b[4] == 80 && b[5] == 71 && b[6] == 80 && b[7] == 75 && b[8] == 69 && b[9] == 89 {
            assert(b@ =~= seq![79u8, 80u8, 69u8, 78u8, 80u8, 71u8, 80u8, 75u8, 69u8, 89u8]);
            return Some(QType::OPENPGPKEY);
        }
        None
    }

    /// The variant named `s` exactly (names are upper case, as declared);
    /// `UnknownEnumName` when no variant has that name.
    pub fn from_name(s: &str) -> (r: DNSResult<QType>)
        ensures
            match Self::from_name_spec(s.spec_bytes()) {
                Some(t) => r == Ok::<QType, DNSError>(t),
                None => r == Err::<QType, DNSError>(DNSError::UnknownEnumName { kind: EnumKind::QType }),
            },
    {
        let b = s.as_bytes();
        let found = match b.len() {
            1 => Self::lookup_name_of_len_1(b),
            2 => Self::lookup_name_of_len_2(b),
            3 => Self::lookup_name_of_len_3(b),
            4 => Self::lookup_name_of_len_4(b),
            5 => Self::lookup_name_of_len_5(b),
            6 => Self::lookup_name_of_len_6(b),
            7 => Self::lookup_name_of_len_7(b),
            8 => Self::lookup_name_of_len_8(b),
            10 => Self::lookup_name_of_len_10(b),
            _ => None,
        };
        match found {
            Some(t) => Ok(t),
            None => Err(DNSError::UnknownEnumName { kind: EnumKind::QType }),
        }
    }

    /// The first declared variant, `A`.
    pub fn default() -> (r: QType)
        ensures
            r == QType::A,
    {
        QType::A
    }
}

impl View for QType {
    type V = QType;

    open spec fn view(&self) -> QType {
        *self
    }
}

impl ToNetworkOrder for QType {
    open spec fn encodable(&self) -> bool {
        true
    }

    open spec fn wire(&self) -> Seq<u8> {
        u16_wire(self.spec_value())
    }

    fn to_network_bytes(&self, buffer: &mut Vec<u8>) -> (r: usize) {
        write_u16(buffer, self.value());
        2
    }
}

impl FromNetworkOrder for QType {
    open spec fn parse(buf: Seq<u8>, pos: int) -> Result<(QType, int), DNSError> {
        match parse_u16(buf, pos) {
            Ok((v, end)) => match QType::from_value(v) {
                Some(t) => Ok((t, end)),
                None => Err(DNSError::UnknownEnumValue { kind: EnumKind::QType, value: v }),
            },
            Err(e) => Err(e),
        }
    }

    fn from_network_bytes(&mut self, buffer: &[u8], pos: usize) -> (r: DNSResult<usize>) {
        let (v, end) = read_u16(buffer, pos)?;
        *self = QType::try_from(v)?;
        Ok(end)
    }
}

/// Every declared code names exactly one variant, and every variant's code maps back to it.
/// On the wire, every variant reads back as itself, and a code outside the
/// declared set reads as `UnknownEnumValue`.
pub proof fn lemma_qtype_codes(t: QType, v: u16, prefix: Seq<u8>, suffix: Seq<u8>)
    ensures
        QType::from_value(t.spec_value()) == Some(t),
        QType::from_value(v) matches Some(u) ==> u.spec_value() == v,
        QType::parse(prefix + t.wire() + suffix, prefix.len() as int) == Ok::<(QType, int), DNSError>((t, prefix.len() as int + 2)),
        QType::from_value(v) is None ==> QType::parse(prefix + u16_wire(v) + suffix, prefix.len() as int)
            == Err::<(QType, int), DNSError>(DNSError::UnknownEnumValue { kind: EnumKind::QType, value: v }),
{
    lemma_u16_round_trip(t.spec_value(), prefix, suffix);
    lemma_u16_round_trip(v, prefix, suffix);
}

/// Resource record classes.
#[derive(Debug, Clone, Copy, PartialEq, Eq, Structural)]
pub enum QClass {
    IN,
    CS,
    CH,
    HS,
    ANY,
}

impl QClass {
    /// The numeric code of the variant.
    pub open spec fn spec_value(self) -> u16 {
        match self {
            QClass::IN => 1,
            QClass::CS => 2,
            QClass::CH => 3,
            QClass::HS => 4,
            QClass::ANY => 255,
        }
    }

    /// The variant whose code is `v`, if one is declared.
    pub open spec fn from_value(v: u16) -> Option<QClass> {
        if v == 1 {
            Some(QClass::IN)
        } else if v == 2 {
            Some(QClass::CS)
        } else if v == 3 {
            Some(QClass::CH)
        } else if v == 4 {
            Some(QClass::HS)
        } else if v == 255 {
            Some(QClass::ANY)
        } else {
            None
        }
    }

    /// The numeric code of the variant.
    pub fn value(&self) -> (r: u16)
        ensures
            r == self.spec_value(),
    {
        match self {
            QClass::IN => 1,
            QClass::CS => 2,
            QClass::CH => 3,
            QClass::HS => 4,
            QClass::ANY => 255,
        }
    }

    /// The variant whose code is `value`; `UnknownEnumValue` when none is declared.
    pub fn try_from(value: u16) -> (r: DNSResult<QClass>)
        ensures
            match Self::from_value(value) {
                Some(t) => r == Ok::<QClass, DNSError>(t),
                None => r == Err::<QClass, DNSError>(DNSError::UnknownEnumValue { kind: EnumKind::QClass, value }),
            },
    {
        match value {
            1 => Ok(QClass::IN),
            2 => Ok(QClass::CS),
            3 => Ok(QClass::CH),
            4 => Ok(QClass::HS),
            255 => Ok(QClass::ANY),
            _ => Err(DNSError::UnknownEnumValue { kind: EnumKind::QClass, value }),
        }
    }

    /// The variant whose name is `s`, if one is.
    pub open spec fn from_name_spec(s: Seq<u8>) -> Option<QClass> {
        if s == seq![73u8, 78u8] {
            Some(QClass::IN)
        } else if s == seq![67u8, 83u8] {
            Some(QClass::CS)
        } else if s == seq![67u8, 72u8] {
            Some(QClass::CH)
        } else if s == seq![72u8, 83u8] {
            Some(QClass::HS)
        } else if s == seq![65u8, 78u8, 89u8] {
            Some(QClass::ANY)
        } else {
            None
        }
    }

    fn lookup_name(b: &[u8]) -> (r: Option<QClass>)
        ensures
            r == Self::from_name_spec(b@),
    {
        let n = b.len();
        if n == 2 && b[0] == 73 && b[1] == 78 {
            assert(b@ =~= seq![73u8, 78u8]);
            return Some(QClass::IN);
        }
        if n == 2 && b[0] == 67 && b[1] == 83 {
            assert(b@ =~= seq![67u8, 83u8]);
            return Some(QClass::CS);
        }
        if n == 2 && b[0] == 67 && b[1] == 72 {
            assert(b@ =~= seq![67u8, 72u8]);
            return Some(QClass::CH);
        }
        if n == 2 && b[0] == 72 && b[1] == 83 {
            assert(b@ =~= seq![72u8, 83u8]);
            return Some(QClass::HS);
        }
        if n == 3 && b[0] == 65 && b[1] == 78 && b[2] == 89 {
            assert(b@ =~= seq![65u8, 78u8, 89u8]);
            return Some(QClass::ANY);
        }
        None
    }

    /// The variant named `s` exactly (names are upper case, as declared);
    /// `UnknownEnumName` when no variant has that name.
    pub fn from_name(s: &str) -> (r: DNSResult<QClass>)
        ensures
            match Self::from_name_spec(s.spec_bytes()) {
                Some(t) => r == Ok::<QClass, DNSError>(t),
                None => r == Err::<QClass, DNSError>(DNSError::UnknownEnumName { kind: EnumKind::QClass }),
            },
    {
        let b = s.as_bytes();
        let found = Self::lookup_name(b);
        match found {
            Some(t) => Ok(t),
            None => Err(DNSError::UnknownEnumName { kind: EnumKind::QClass }),
        }
    }

    /// The first declared variant, `IN`.
    pub fn default() -> (r: QClass)
        ensures
            r == QClass::IN,
    {
        QClass::IN
    }
}

impl View for QClass {
    type V = QClass;

    open spec fn view(&self) -> QClass {
        *self
    }
}

impl ToNetworkOrder for QClass {
    open spec fn encodable(&self) -> bool {
        true
    }

    open spec fn wire(&self) -> Seq<u8> {
        u16_wire(self.spec_value())
    }

    fn to_network_bytes(&self, buffer: &mut Vec<u8>) -> (r: usize) {
        write_u16(buffer, self.value());
        2
    }
}

impl FromNetworkOrder for QClass {
    open spec fn parse(buf: Seq<u8>, pos: int) -> Result<(QClass, int), DNSError> {
        match parse_u16(buf, pos) {
            Ok((v, end)) => match QClass::from_value(v) {
                Some(t) => Ok((t, end)),
                None => Err(DNSError::UnknownEnumValue { kind: EnumKind::QClass, value: v }),
            },
            Err(e) => Err(e),
        }
    }

    fn from_network_bytes(&mut self, buffer: &[u8], pos: usize) -> (r: DNSResult<usize>) {
        let (v, end) = read_u16(buffer, pos)?;
        *self = QClass::try_from(v)?;
        Ok(end)
    }
}

/// Every declared code names exactly one variant, and every variant's code maps back to it.
/// On the wire, every variant reads back as itself, and a code outside the
/// declared set reads as `UnknownEnumValue`.
pub proof fn lemma_qclass_codes(t: QClass, v: u16, prefix: Seq<u8>, suffix: Seq<u8>)
    ensures
        QClass::from_value(t.spec_value()) == Some(t),
        QClass::from_value(v) matches Some(u) ==> u.spec_value() == v,
        QClass::parse(prefix + t.wire() + suffix, prefix.len() as int) == Ok::<(QClass, int), DNSError>((t, prefix.len() as int + 2)),
        QClass::from_value(v) is None ==> QClass::parse(prefix + u16_wire(v) + suffix, prefix.len() as int)
            == Err::<(QClass, int), DNSError>(DNSError::UnknownEnumValue { kind: EnumKind::QClass, value: v }),
{
    lemma_u16_round_trip(t.spec_value(), prefix, suffix);
    lemma_u16_round_trip(v, prefix, suffix);
}

} // verus!
