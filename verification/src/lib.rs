//! Flattening of a toolpath record tree into a columnar table, and the
//! rebuilding of the tree from such a table.
//!
//! A document is a run of layers, a layer a run of segments, a segment a run
//! of points. [`flatten::flatten`] writes one row per point, with the layer
//! index and a segment number that counts through the whole document;
//! [`rebuild::rebuild`] parts the rows of a table by those two keys, stably,
//! and makes layers, segments and points of them again. What holds of the two
//! is stated and proved in the modules `flatten_laws`, `rebuild_laws` and
//! `round_trip`.

pub mod catalog;
pub mod error;
pub mod flatten;
pub mod flatten_laws;
pub mod partition;
pub mod rebuild;
pub mod rebuild_laws;
pub mod round_trip;
pub mod row;
pub mod scalar;
pub mod schema;
pub mod table;
