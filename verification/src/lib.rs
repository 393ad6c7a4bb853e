//! Certification of HTTP-style responses: a rule language declaring what to
//! certify, a labeled Merkle hash tree committing to the rule, and a
//! versioned header packaging the certificate, the tree and the declared
//! path into one transportable artifact.

pub mod b64;
pub mod hashes;
pub mod tree;
pub mod cbor;
pub mod header;
pub mod fixture;
pub mod cel;
pub mod mapper;
