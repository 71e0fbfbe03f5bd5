//! A leaderboard of player scores.
//!
//! The library keeps a ranked table of players: each entry pairs a unique
//! identifier and a unique username with a mutable high score and a creation
//! timestamp. `store` holds the table itself and its raw operations; `service`
//! enforces the business rules on top of it (no duplicate usernames,
//! not-found reporting, ranked listing). Persistence and the HTTP surface are
//! left to the surrounding application, which keeps a durable copy of the
//! rows and replays them through `service::LeaderboardService::load`.

pub mod clock;
pub mod entry;
pub mod errors;
pub mod service;
pub mod store;
