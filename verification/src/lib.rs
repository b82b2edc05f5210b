//! A sliding-window rate limiter over a durable key-value store.
//!
//! A [`RateLimiter`] holds rules such as "5 events per minute" and "100 per
//! day". For each identifier the store keeps a [`Stamp`], the count of
//! recent events by second. A check reads the stamp and answers with a
//! [`Permit`]; where the event is allowed, the permit carries a [`Ticket`],
//! and redeeming the ticket, once the guarded action has succeeded, records
//! the event.
//!
//! The library decides and computes; it never talks to the store. Its
//! caller gets the bytes, hands the store's answer to [`RateLimiter::check_kv`]
//! or [`Ticket::redeem`], and carries out the [`Put`] that a redemption
//! returns.

pub mod datetime;
pub mod duration;
pub mod foreign;
pub mod limiter;
pub mod order;
pub mod stamp;
pub mod store;
pub mod ticket;

pub use datetime::Datetime;
pub use limiter::{Permit, RateLimiter};
pub use stamp::Stamp;
pub use store::{fetch, LimitError};
pub use ticket::{Put, Ticket};
