//! A verified codec for the classic DNS wire format: queries are encoded
//! into length-prefixed label sequences with a 12-byte big-endian header,
//! and response buffers are parsed back into structured messages.

pub mod decode;
pub mod encode;
pub mod message;
pub mod name;
pub mod roundtrip;
pub mod wire;

pub use decode::{parse_name, parse_question_at, parse_response};
pub use encode::{encode_name, encode_query};
pub use message::{Answer, DNSRequest, DNSResponse, DecodeError, EncodeError, Query};
