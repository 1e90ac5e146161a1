//! Decoding support for a compact, self-describing binary telemetry format
//! used by fitness and sports devices.
//!
//! The crate covers the typed value algebra of the wire format (validity
//! sentinels, integer coercion, little-endian byte encoding, and a partial
//! arithmetic composition law), the compiler that turns a tabular profile
//! specification into a catalog of message and field-type definitions, and
//! the resolver that projects raw decoded fields through that catalog.
//!
//! File I/O, spreadsheet access, and floating-point scaling live in the
//! surrounding tooling; this crate works on plain values.
pub mod profile;
pub mod resolver;
pub mod values;
