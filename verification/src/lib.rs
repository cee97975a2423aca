//! Client-side object resolution for a distributed ledger: an address-keyed
//! object cache, the package dependency-closure engine, the decisions of the
//! read accessor and of the mutation coordinator, and the capability rules of
//! the two ledger backends.

pub mod identifier;
pub mod ids;
pub mod object;
pub mod backend;
pub mod cache;
pub mod resolver;
pub mod closure;
pub mod reader;
pub mod mutation;
