//! A DNS wire codec: the message model of RFC 1035 with the EDNS0 OPT
//! pseudo-record of RFC 6891, its encoder and decoder in network order,
//! and the assembly of queries and responses.
pub mod error;
pub mod network_order;
pub mod enums;
pub mod header;
pub mod util;
pub mod name;
pub mod question;
pub mod rdata;
pub mod record;
pub mod message;
