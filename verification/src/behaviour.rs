//! Network behaviours of the transport.
pub mod whitelist;
