//! The commands of the generator.

use vstd::prelude::*;

verus! {

/// The command line: one subcommand.
pub struct Cli {
    pub command: BindingCommand,
}

/// What to generate bindings for.
pub enum BindingCommand {
    /// Newer versions of the game (1.9 and later).
    New {
        andorid_symbols: String,
        cocos2d_symbols: String,
        /// Vtables obtained from Ghidra.
        vtables: Option<String>,
    },
    /// Older versions of the game (1.8 and earlier).
    Old {
        /// Android symbols laid out in a text file, as llvm-nm lists them.
        andorid_symbols: String,
        /// Vtables obtained from Ghidra.
        vtables: Option<String>,
    },
}

} // verus!
