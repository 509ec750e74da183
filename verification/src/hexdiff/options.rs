//! Display options and the filter that decides which lines are shown.

use vstd::prelude::*;

verus! {

/// Options that control the hex dump.
#[derive(Debug, Clone)]
pub struct HexdiffOptions {
    /// Number of bytes per line; zero stands for the default of 16.
    pub block: usize,
    /// Show lines that hold a byte on which no two buffers agree.
    pub show_red: bool,
    /// Show lines that hold a byte on which all buffers agree.
    pub show_green: bool,
    /// Show lines that hold a byte on which only some buffers agree.
    pub show_blue: bool,
    /// Show only the first buffer's bytes; all buffers are still compared.
    pub terse: bool,
    /// Replace a run of repeated lines by a single `*`.
    pub collapse_repeats: bool,
}

/// The number of bytes per line where none is asked for.
pub const DEFAULT_BLOCK: usize = 16;

/// Whether a line with the given flags `(has_red, has_green, has_blue)` passes
/// the filters of `opts`: some filter that is switched on finds its class in
/// the line.
pub open spec fn displays(flags: (bool, bool, bool), opts: HexdiffOptions) -> bool {
    (opts.show_red && flags.0) || (opts.show_green && flags.1) || (opts.show_blue && flags.2)
}

/// The options that are in effect for a run started with `opts`: a block size
/// of zero stands for the default, and with no filter switched on all three
/// are.
pub open spec fn effective(opts: HexdiffOptions) -> HexdiffOptions {
    let unfiltered = !opts.show_red && !opts.show_green && !opts.show_blue;
    HexdiffOptions {
        block: if opts.block == 0 {
            DEFAULT_BLOCK
        } else {
            opts.block
        },
        show_red: opts.show_red || unfiltered,
        show_green: opts.show_green || unfiltered,
        show_blue: opts.show_blue || unfiltered,
        terse: opts.terse,
        collapse_repeats: opts.collapse_repeats,
    }
}

impl Default for HexdiffOptions {
    fn default() -> (opts: Self)
        ensures
            opts == (HexdiffOptions {
                block: DEFAULT_BLOCK,
                show_red: true,
                show_green: true,
                show_blue: true,
                terse: false,
                collapse_repeats: false,
            }),
    {
        HexdiffOptions {
            block: DEFAULT_BLOCK,
            show_red: true,
            show_green: true,
            show_blue: true,
            terse: false,
            collapse_repeats: false,
        }
    }
}

impl HexdiffOptions {
    /// Resolves the defaults once, before a run: see [`effective`].
    pub fn normalized(self) -> (opts: Self)
        ensures
            opts == effective(self),
    {
        let mut opts = self;
        if opts.block == 0 {
            opts.block = DEFAULT_BLOCK;
        }
        if !opts.show_red && !opts.show_green && !opts.show_blue {
            opts.show_red = true;
            opts.show_green = true;
            opts.show_blue = true;
        }
        opts
    }
}

/// Decides whether a line with the given flags `(has_red, has_green,
/// has_blue)` is displayed under the filters of `opts`.
pub fn should_display_flags(flags: (bool, bool, bool), opts: &HexdiffOptions) -> (shown: bool)
    ensures
        shown == displays(flags, *opts),
{
    (opts.show_red && flags.0) || (opts.show_green && flags.1) || (opts.show_blue && flags.2)
}

/// With no filter switched on, the options in effect are those of a run with
/// all three switched on, and every line that holds a byte of any class is
/// shown.
pub proof fn lemma_no_filter_shows_all(opts: HexdiffOptions, flags: (bool, bool, bool))
    requires
        !opts.show_red,
        !opts.show_green,
        !opts.show_blue,
    ensures
        effective(opts) == effective(
            HexdiffOptions { show_red: true, show_green: true, show_blue: true, ..opts },
        ),
        displays(flags, effective(opts)) == (flags.0 || flags.1 || flags.2),
{
}

/// Resolving the defaults a second time changes nothing, and leaves a block
/// size of at least one.
pub proof fn lemma_effective_is_stable(opts: HexdiffOptions)
    ensures
        effective(effective(opts)) == effective(opts),
        effective(opts).block >= 1,
        effective(opts).show_red || effective(opts).show_green || effective(opts).show_blue,
{
}

} // verus!
