//! A daily market-data ingestion pipeline, verified with Verus.
//!
//! Once per day, at a configured UTC time of day, the pipeline pulls a
//! paginated listing of cryptocurrency market entries from a remote API,
//! reconciles a dimension table of known coins, and appends one timestamped
//! price/market-cap observation per coin.
//!
//! This crate holds the pipeline's logic with its contracts:
//!
//! - [`schedule`]: when the next daily run starts;
//! - [`pacing`]: the token-bucket pacing of page requests;
//! - [`fetch`]: page offsets and the assembly of a cycle's records from
//!   per-page outcomes, tolerating failed pages;
//! - [`numeric`]: coercion of textual numeric fields, substituting a default
//!   for malformed values;
//! - [`record`]: the transient record shape a cycle works on;
//! - [`store`]: the dimension/fact store semantics — bulk upsert of coins and
//!   the append of observation rows.
//!
//! The surrounding process (clock, HTTP, JSON decoding, the SQL database)
//! performs the I/O and feeds plain values to these functions.

pub mod fetch;
pub mod numeric;
pub mod pacing;
pub mod record;
pub mod schedule;
pub mod store;
