//! Verified core of the `dog` DNS client: localised messages, the choice of
//! the nameserver to query, and the parsing of system resolver configuration.

pub mod ip;
pub mod text;
pub mod localize;
pub mod resolve;
pub mod transport;
pub mod tls;
