//! A chat hub: the registry of live sessions, the bounded broadcast channels
//! that fan chat events out to them, and the session life cycle that ties
//! the two together, with the small pieces of logic that the clients and the
//! compute worker around the hub share.

pub mod allocator;
pub mod channel;
pub mod client;
pub mod decimal;
pub mod http;
pub mod producer;
pub mod registry;
pub mod session;
pub mod state;
pub mod worker;
