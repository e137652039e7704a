//! A versioned, content-addressed global state: typed keys guarded by access
//! rights, stored values with a canonical binary encoding, atomic commits of
//! transform sets against immutable roots, and path queries through named keys.

pub mod access_rights;
pub mod byte_map;
pub mod bytesrepr;
pub mod contract;
pub mod digest;
pub mod engine;
pub mod global_state;
pub mod key;
pub mod named_keys;
pub mod protocol_version;
pub mod query;
pub mod stored_value;
