//! The subset of ASN.1 Basic Encoding Rules that SNMPv1 uses.
pub mod decode;
pub mod encode;
pub mod model;
pub mod round_trip;
