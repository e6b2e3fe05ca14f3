//! Spend storage for a storage-network node: at most one valid spend per
//! asset id, with permanent evidence of any double spend observed locally.

pub mod codec;
pub mod hashing;
pub mod node;
pub mod spends;
pub mod store;
