//! Core of a peering-lab resource gateway.
//!
//! The library issues two scarce resources to pseudonymous users — an
//! autonomous-system number drawn from a fixed integer range, and a
//! time-bounded lease on an IPv6 /48 block drawn from a configured list —
//! and guards them behind two authentication schemes: a signed end-user
//! token and a shared agent secret.  The allocation engine, the lease
//! records and their lifecycle, the authentication decisions and the
//! downstream mapping reports live here, with contracts; network and file
//! I/O stay outside.

pub mod errors;
pub mod gate;
pub mod handlers;
pub mod mappings;
pub mod order;
pub mod pool_asns;
pub mod prefix_pool;
pub mod pseudonym;
pub mod store;



