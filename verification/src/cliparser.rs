//! The command line of the tool, as plain values.

use vstd::prelude::*;

verus! {

/// The arguments of one invocation.
#[derive(Debug)]
pub struct CliArgs {
    /// List supported signatures and extractors
    pub list: bool,
    /// Read data from standard input
    pub stdin: bool,
    /// Suppress normal stdout output
    pub quiet: bool,
    /// During recursive extraction display *all* results
    pub verbose: bool,
    /// Automatically extract known file types
    pub extract: bool,
    /// Carve both known and unknown file contents to disk
    pub carve: bool,
    /// Recursively scan extracted files
    pub matryoshka: bool,
    /// Search for all signatures at all offsets
    pub search_all: bool,
    /// Generate an entropy graph with Plotly
    pub entropy: bool,
    /// Save entropy graph as a PNG file
    pub png: Option<String>,
    /// Perform a hexdump / diff of a file or files
    pub hexdump: bool,
    /// Only show lines containing bytes that are different among all files
    pub show_red: bool,
    /// Only show lines containing bytes that are the same among all files
    pub show_green: bool,
    /// Only show lines containing bytes that are different among some files
    pub show_blue: bool,
    /// Collapse repeated output lines
    pub show_same: bool,
    /// Diff all files, but only display a hex dump of the first file
    pub terse: bool,
    /// Set file block size (hexdump line size)
    pub block: usize,
    /// Log JSON results to a file ('-' for stdout)
    pub log: Option<String>,
    /// Manually specify the number of threads to use
    pub threads: Option<usize>,
    /// Do no scan for these signatures
    pub exclude: Option<Vec<String>>,
    /// Only scan for these signatures
    pub only: Option<Vec<String>>,
    /// Extract files/folders to a custom directory
    pub directory: String,
    /// Path(s) to the file(s) to analyze
    pub files: Vec<String>,
}

} // verus!
