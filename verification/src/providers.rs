//! Speed-test providers.

pub mod cloudflare;
