//! Decisions of a middle-proxy health monitor: how many writers each data
//! centre should keep, which writers to close, replace or rotate, and when to
//! try again. The control-plane HTTP helpers and the clock check live here too.

pub mod clock;
pub mod filters;
pub mod health;
pub mod http;
pub mod key_map;
pub mod ranking;
pub mod sums;
pub mod time_sync;
pub mod types;
