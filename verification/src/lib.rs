//! Side-by-side hex dump and byte-wise comparison of one or more buffers.
//!
//! Every byte position is classified by how far the buffers agree on it, and
//! the classification drives both the colour of the rendered bytes and the
//! choice of the lines that are shown.

pub mod cliparser;
pub mod hexdiff;
