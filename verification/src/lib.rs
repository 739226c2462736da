//! Kynos's HTTP grammars and middleware decisions, verified.

pub mod octets;
pub mod time;
pub mod fields;
pub mod http;
pub mod middleware;
