//! Errors of the codec and of message assembly.
use vstd::prelude::*;

verus! {

/// The enumerated type whose wire value was not among the declared ones.
#[derive(Debug, Clone, Copy, PartialEq, Eq, Structural)]
pub enum EnumKind {
    PacketType,
    OpCode,
    ResponseCode,
    QType,
    QClass,
}

/// Errors met while building a query from caller input.
#[derive(Debug, Clone, Copy, PartialEq, Eq, Structural)]
pub enum InternalError {
    DnsDomainNameTooLong,
    EmptyDomainName,
}

#[derive(Debug)]
pub enum DNSError {
    /// The input ended before a codec finished.
    ShortRead,
    /// A domain name breaks the rules of labels and pointers.
    MalformedName,
    /// A wire value is outside the declared set of an enumerated type.
    UnknownEnumValue { kind: EnumKind, value: u16 },
    /// A name matches no variant of an enumerated type.
    UnknownEnumName { kind: EnumKind },
    /// The record data does not fill exactly the RDLENGTH octets announced.
    BadRdLength,
    /// A character string was asked for as text and is not UTF-8.
    NonUtf8Text,
    /// A well-formed response carries a non-zero response code.
    ResponseRcode { code: u16 },
    /// An error described by a message.
    DNS(String),
    DNSInternalError(InternalError),
}

/// The result of every fallible operation of the library.
pub type DNSResult<T> = Result<T, DNSError>;

impl DNSError {
    /// An error that carries the message `s`.
    pub fn new(s: &str) -> (r: Self)
        ensures
            r matches DNSError::DNS(m) && m@ == s@,
    {
        DNSError::DNS(s.to_owned())
    }
}

} // verus!
