// A build-time font-atlas baker: packs measured glyph boxes into a single
// bitmap's rows, encodes a two-tier lookup from each glyph sequence to its
// packed record, and serializes and compresses the finished asset. The
// rendering backend and all I/O live with the caller; every stage here is
// specified and verified.

pub mod bake;
pub mod errors;
pub mod estimate;
pub mod layout;
pub mod lookup;
pub mod metrics;
pub mod serialize;
