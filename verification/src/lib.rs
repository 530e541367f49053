use vstd::prelude::*;

pub mod encode;
pub mod error;
pub mod hashing;
pub mod identity;
pub mod json;
pub mod native_v2;
pub mod native_v2_product;
pub mod network;
pub mod network_broker;
pub mod natural_v2;
pub mod object_refs;
pub mod peer_capabilities;
pub mod physical;
pub mod text;
pub mod values;

verus! {
}
