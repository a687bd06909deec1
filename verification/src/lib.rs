//! A dispatch-and-publish pipeline for chat webhooks: it classifies an
//! inbound semi-structured payload by command, builds the outbound message
//! and its canonical wire encoding, and hands out publisher handles from a
//! fixed pool in round-robin order. The transport around it — the HTTP
//! server and the broker client — stays outside; this crate holds the
//! decisions and proves them.

pub mod dispatch;
pub mod encode;
pub mod json;
pub mod pool;
pub mod text;
