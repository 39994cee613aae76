//! Generator of Geode binding files (broma) from Android symbol lists and
//! Ghidra vtable dumps, with the text processing and layout logic verified.

pub mod cli;
pub mod layout;
pub mod laws;
pub mod logic;
pub mod matching;
pub mod old_versions;
pub mod order;
pub mod parsing_logic;
pub mod re;
pub mod text;
pub mod writer;
