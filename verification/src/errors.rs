//! The error type shared by every stage of the assembler, together with its
//! spec-level view.

use vstd::prelude::*;

verus! {

/// A fatal assembly error. Every failure anywhere in the pipeline aborts the
/// whole run with one of these.
#[derive(Debug, PartialEq, Eq)]
pub enum AvcErr {
    /// A token that should be an instruction mnemonic is not in the opcode tables.
    BadInstr(String),
    /// A mode-suffix character is unknown, or disallowed for the base opcode.
    BadMode(String, char),
    /// A directive whose name is not in the directive table.
    UnrecognisedDirective(String),
    /// A directive whose argument list is not properly parenthesised.
    MalformedDirective(String),
    /// A label reference whose name was never defined.
    UndefinedLabel(String),
    /// A numeric argument that does not parse, or does not fit its range.
    BadInt(String),
    /// An instruction or data byte placed below the code-region boundary.
    OpNotInCodeSpace,
    /// A relative label reference whose offset does not fit a signed byte.
    RelJumpTooLarge,
    /// A macro invocation whose name was never defined.
    UndefinedMacro(String),
    /// A character literal outside the ASCII range.
    MultibyteChar(char),
    /// Macro expansion nested deeper than the fixed recursion limit.
    MacroRecursionLimit(String),
    /// A macro invoked with a different number of arguments than it has parameters.
    MacroArgMismatch(String),
    /// The running address counter left the machine's representable range.
    AddressOverflow,
}

/// The spec-level shape of an [`AvcErr`]: the same variants over `Seq<char>`.
pub enum ErrView {
    BadInstr(Seq<char>),
    BadMode(Seq<char>, char),
    UnrecognisedDirective(Seq<char>),
    MalformedDirective(Seq<char>),
    UndefinedLabel(Seq<char>),
    BadInt(Seq<char>),
    OpNotInCodeSpace,
    RelJumpTooLarge,
    UndefinedMacro(Seq<char>),
    MultibyteChar(char),
    MacroRecursionLimit(Seq<char>),
    MacroArgMismatch(Seq<char>),
    AddressOverflow,
}

impl View for AvcErr {
    type V = ErrView;

    open spec fn view(&self) -> ErrView {
        match self {
            AvcErr::BadInstr(s) => ErrView::BadInstr(s@),
            AvcErr::BadMode(s, c) => ErrView::BadMode(s@, *c),
            AvcErr::UnrecognisedDirective(s) => ErrView::UnrecognisedDirective(s@),
            AvcErr::MalformedDirective(s) => ErrView::MalformedDirective(s@),
            AvcErr::UndefinedLabel(s) => ErrView::UndefinedLabel(s@),
            AvcErr::BadInt(s) => ErrView::BadInt(s@),
            AvcErr::OpNotInCodeSpace => ErrView::OpNotInCodeSpace,
            AvcErr::RelJumpTooLarge => ErrView::RelJumpTooLarge,
            AvcErr::UndefinedMacro(s) => ErrView::UndefinedMacro(s@),
            AvcErr::MultibyteChar(c) => ErrView::MultibyteChar(*c),
            AvcErr::MacroRecursionLimit(s) => ErrView::MacroRecursionLimit(s@),
            AvcErr::MacroArgMismatch(s) => ErrView::MacroArgMismatch(s@),
            AvcErr::AddressOverflow => ErrView::AddressOverflow,
        }
    }
}

} // verus!
