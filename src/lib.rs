//! Time-bucketed activity analytics for a chat community: hourly message and
//! reaction counts per user and day, yearly shards, range queries that merge
//! across shards, and a cache of resumable scan cursors.
pub mod assoc;
pub mod collect;
pub mod color;
pub mod cursor;
pub mod database;
pub mod day;
pub mod epoch;
pub mod shard;
pub mod user;
