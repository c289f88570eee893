//! A verified ingestion pipeline for water-quality telemetry.
//!
//! A sensor sends packets of forty bytes, each with a pH and a TDS
//! measurement, the instant of each, and the instant at which the packet was
//! sent. [`wire`] decodes and encodes the packet, [`parsing`] validates its
//! timestamps against the local calendar, [`store`] keeps the relation of
//! validated readings and answers range queries, [`window`] turns a symbolic
//! time unit into a cutoff, [`analysis`] draws the series of one metric, and
//! [`pipeline`] puts these together for the two directions of traffic.
//!
//! Three choices of representation run through the crate. A measurement is
//! held as the bit pattern of its binary64 number, since nothing here does
//! arithmetic on it. An instant is held as unix seconds that the local calendar
//! is known to have. And the relation lives in memory: durable storage, the
//! clock and the network belong to the caller, who hands in bytes, rows and
//! the present instant, and persists each row that a submission hands back.

pub mod analysis;
pub mod parsing;
pub mod pipeline;
pub mod store;
pub mod window;
pub mod wire;
