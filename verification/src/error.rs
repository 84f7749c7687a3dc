//! Compilation errors, tagged with the phase that raised them.
use vstd::prelude::*;
use crate::text::{nat_text, push_str, usize_to_text};
use vstd::string::StringExecFns;

verus! {

/// Compilation phases
#[derive(Debug, Clone, Copy, PartialEq, Eq, Structural)]
pub enum Phase {
    Lexical,
    Syntax,
    Semantic,
    CodeGen,
}

/// Compilation error with phase information and position tracking
#[derive(Debug, Clone)]
pub struct CompileError {
    pub phase: Phase,
    pub line: usize,
    pub col: usize,
    pub message: String,
}

/// What an error holds, with its message as a character sequence.
pub struct ErrorV {
    pub phase: Phase,
    pub line: nat,
    pub col: nat,
    pub message: Seq<char>,
}

impl View for CompileError {
    type V = ErrorV;

    open spec fn view(&self) -> ErrorV {
        ErrorV { phase: self.phase, line: self.line as nat, col: self.col as nat, message: self.message@ }
    }
}

/// Result type for compilation operations
pub type CompileResult<T> = Result<T, CompileError>;

/// The name of a phase as `Debug` writes it.
pub open spec fn phase_text(p: Phase) -> Seq<char> {
    match p {
        Phase::Lexical => "Lexical"@,
        Phase::Syntax => "Syntax"@,
        Phase::Semantic => "Semantic"@,
        Phase::CodeGen => "CodeGen"@,
    }
}

/// An error without position: `[Phase] 0:0 – message` is how it shows.
pub open spec fn err_v(phase: Phase, message: Seq<char>) -> ErrorV {
    ErrorV { phase, line: 0, col: 0, message }
}

impl CompileError {
    /// The text of the error as shown to a user:
    /// `[{phase:?}] {line}:{col} – {message}`.
    pub open spec fn spec_display(self) -> Seq<char> {
        "["@ + phase_text(self.phase) + "] "@ + nat_text(self.line as nat) + ":"@
            + nat_text(self.col as nat) + " \u{2013} "@ + self.message@
    }

    /// Builds an error at line 0, column 0 of the given phase.
    pub fn without_position(phase: Phase, message: String) -> (e: CompileError)
        ensures
            e@ == err_v(phase, message@),
    {
        CompileError { phase, line: 0, col: 0, message }
    }

    /// The text of the error as shown to a user:
    /// `[{phase:?}] {line}:{col} – {message}`.
    pub fn display_text(&self) -> (r: String)
        ensures
            r@ == self.spec_display(),
    {
        let mut s = String::from_str("[");
        let p = match self.phase {
            Phase::Lexical => "Lexical",
            Phase::Syntax => "Syntax",
            Phase::Semantic => "Semantic",
            Phase::CodeGen => "CodeGen",
        };
        push_str(&mut s, p);
        push_str(&mut s, "] ");
        let l = usize_to_text(self.line);
        push_str(&mut s, l.as_str());
        push_str(&mut s, ":");
        let c = usize_to_text(self.col);
        push_str(&mut s, c.as_str());
        push_str(&mut s, " \u{2013} ");
        push_str(&mut s, self.message.as_str());
        s
    }
}

} // verus!
