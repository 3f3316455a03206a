//! Rolling-hash content boundary detection for content-defined chunking.
//!
//! A caller owns a 64-bit rolling hash state and repeatedly asks an engine
//! for the first position in a byte slice at which the hash, updated by the
//! recurrence `h' = (h << 1) + table[byte] (mod 2^64)`, satisfies
//! `h' & mask == 0`.  Three engines share one contract: a one-byte-at-a-time
//! reference engine, a paired engine that fuses two recurrence steps using a
//! doubled weight table, and a quad engine that fuses four steps into two
//! independent scale-and-add computations.  All three are proved to report
//! the same boundary and the same resulting hash on every input.

pub mod laws;
pub mod model;
pub mod paired;
pub mod scalar;
pub mod table;

pub use table::Table;
