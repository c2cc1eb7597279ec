//! The settings of the formatter.

use vstd::prelude::*;

verus! {

/// Layout settings handed to the formatter.
#[derive(Debug, Clone, Copy)]
pub struct Configuration {
    /// Maximum number of columns a rendered line should occupy.
    pub line_width: u32,
    /// Number of columns added per indentation level.
    pub indent_width: u8,
}

impl Default for Configuration {
    fn default() -> (config: Self)
        ensures
            config.line_width == 80,
            config.indent_width == 2,
    {
        Self { line_width: 80, indent_width: 2 }
    }
}

} // verus!
