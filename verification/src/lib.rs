//! Hourly market digest for the bitbank exchange: the rules that pick the pairs,
//! lay out the digest text, split it into chat-sized messages, and validate the
//! delivery configuration.
pub mod api;
pub mod calendar;
pub mod candles;
pub mod config;
pub mod delivery;
pub mod digest;
pub mod number;
pub mod order;
pub mod semaphore;
pub mod text;
pub mod tickers;
