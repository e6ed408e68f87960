//! Reaction commands for a chat bot, and the media cache behind them.
//!
//! A reaction command answers with an animated image. The image address is
//! served from a cache that maps `(backend, endpoint)` pairs to the address
//! fetched last, and every use of an entry asks for a fresh fetch so that the
//! next use shows another image. All network traffic happens outside this
//! crate: the functions here decide, the caller performs.

pub mod lifecycle;
pub mod manager;
pub mod random;
pub mod reaction;
pub mod registry;
pub mod store;
pub mod text;
