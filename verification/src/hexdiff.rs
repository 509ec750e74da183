//! Hex dump and diff of one or more buffers.

pub mod classify;
pub mod driver;
pub mod options;
pub mod paint;
pub mod render;
pub mod text;

pub use classify::{classify_block, classify_position, flags_for_classes, ByteClass};
pub use driver::{run, should_show_line, Collapser, LineAction};
pub use options::{should_display_flags, HexdiffOptions};
pub use render::{format_columns, format_line, render_header, render_line, RenderedLine};
pub use text::is_printable_ascii;
