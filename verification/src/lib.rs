//! A filtering DNS resolver library: a DNS wire-format codec, a local
//! allow/block policy, and the response-selection logic of the resolver
//! daemon, all with verified contracts.

pub mod commands;
pub mod daemon;
pub mod data;
pub mod doh;
pub mod enums;
pub mod laws;
pub mod util;
