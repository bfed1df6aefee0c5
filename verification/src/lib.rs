//! Core of a periodic README updater: a daily run-scheduler with a per-date
//! store and byte codec, a contribution-streak calculator, readers for the
//! remote API's JSON reply and the blog homepage, and an emoji renderer for
//! the published numbers.

pub mod blog;
pub mod codec;
pub mod contributions;
pub mod emoji;
pub mod schedule;
pub mod store;
pub mod streak;
