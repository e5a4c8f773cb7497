//! Verified core of the client for the modulix store daemon: the conversion of
//! the daemon's `a{sv}` rows into the JSON documents that the C plugin parses,
//! and the decisions of the C interface around each bus call.

pub mod convert;
pub mod json;
pub mod store;
pub mod value;

pub use convert::{dict_to_json, shots_to_json, value_to_json};
pub use json::{Json, JsonNumber};
pub use value::{DbusValue, Dict};
