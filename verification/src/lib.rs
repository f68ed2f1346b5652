//! Verified core of a DNS-over-HTTPS endpoint tester.

pub mod base64url;
pub mod dns;
pub mod doh_list;
pub mod endpoint;
pub mod probe;
pub mod reply;
pub mod report;
pub mod text;
pub mod types;
