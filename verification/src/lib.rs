//! Binary codecs for moving large numeric datasets between a flat container
//! file format and a database's binary bulk-copy wire protocol.
//!
//! The library holds the verified core: the length-prefixed vector record
//! codec, the bulk-copy tuple encoder with its backpatched field lengths, and
//! the streaming import pipeline that validates counts and dimensions against
//! a manifest.

pub mod bulkcopy;
pub mod dataset;
pub mod endian;
pub mod pipeline;
pub mod vecs;
