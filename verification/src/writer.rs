//! The broma writer: an output text that only ever grows at its end.

use vstd::prelude::*;
use vstd::string::StringExecFns;

verus! {

/// Text every broma file starts with: clang-format is turned off, and a
/// few lines are left free for a prologue.
pub open spec fn broma_prologue() -> Seq<char> {
    "// clang-format off\n\n\n"@
}

/// Opening of the declaration of class `class_name`.
pub open spec fn class_opening(class_name: Seq<char>) -> Seq<char> {
    "[[link(android)]]\nclass "@ + class_name + " "@ + "{\n"@
}

/// Closing of a class declaration, with room left after it.
pub open spec fn class_closing() -> Seq<char> {
    "}\n\n"@
}

/// Accumulates the code of a broma file.
pub struct BromaWriter {
    pub code: String,
}

impl BromaWriter {
    /// A writer holding only the prologue.
    pub fn new() -> (w: Self)
        ensures
            w.code@ == broma_prologue(),
    {
        Self { code: String::from_str("// clang-format off\n\n\n") }
    }

    /// Opens the declaration of `class_name`.
    pub fn declare_class(&mut self, class_name: &str)
        ensures
            final(self).code@ == old(self).code@ + class_opening(class_name@),
    {
        self.code.append("[[link(android)]]\nclass ");
        self.code.append(class_name);
        self.code.append(" ");
        self.code.append("{\n");
    }

    /// Appends `code` as it is.
    pub fn write(&mut self, code: &str)
        ensures
            final(self).code@ == old(self).code@ + code@,
    {
        self.code.append(code);
    }

    /// Closes the class declaration being written.
    pub fn close_class_declaration(&mut self)
        ensures
            final(self).code@ == old(self).code@ + class_closing(),
    {
        self.code.append("}\n\n");
    }
}

} // verus!
