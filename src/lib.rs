//! Self-play driver core for an external board-evaluation engine: request
//! correlation, the request line protocol, move selection, game stepping and
//! bounded scheduling of concurrent games.
pub mod text;
pub mod coord;
pub mod policy;
pub mod correlation;
pub mod game;
pub mod scheduler;
pub mod config;
pub mod protocol;
pub mod record;
pub mod client;
