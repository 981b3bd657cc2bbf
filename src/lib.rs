//! DNS record sets and the binary wire codec: a bounds-checked byte cursor, a
//! byte sink with a name-compression table, and a resource-record set that
//! follows the RFC 2136 replacement rules.

pub mod error;
pub mod wire;
pub mod decoder;
pub mod encoder;
pub mod rr;
pub mod rr_set;
