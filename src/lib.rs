//! SNMPv1 wire core: a BER codec, the message layer built on it, and the
//! request-handling engine of an agent that serves an in-memory object store.
pub mod agent;
pub mod asn1;
pub mod buf;
pub mod mib;
pub mod round_trip;
pub mod snmp;
