//! Secure aggregation: a server learns the sum of the users' vectors and
//! nothing else, even when some users drop out part way through.

pub mod crypto;
pub mod idmap;
pub mod codec;
pub mod error;
pub mod helpers;
pub mod types;
pub mod user;
pub mod server;
pub mod laws;
