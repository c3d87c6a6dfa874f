//! Inspection and transformation of append-only, offset-addressed record
//! logs: a lenient JSON field codec, a predicate filter-copy pipeline with
//! progress accounting, a timestamp sort pipeline, a tolerant integrity
//! scanner, and a bidirectional viewing cursor.

pub mod codec;
pub mod cursor;
pub mod filter;
pub mod record;
pub mod scan;
pub mod sortpipe;
