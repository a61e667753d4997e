use vstd::prelude::*;
use crate::text::{decimal, decimal_digits, push_str};

verus! {

/// Why a script did not compile, and where.
#[derive(Debug, Clone, PartialEq, Eq)]
pub struct CompileError {
    pub line: usize,
    pub column: usize,
    pub message: String,
}

/// The text `line `.
pub open spec fn line_prefix() -> Seq<char> {
    seq!['l', 'i', 'n', 'e', ' ']
}

impl CompileError {
    /// An error at a position.
    pub fn at(line: usize, column: usize, message: &str) -> (error: Self)
        ensures
            error.line == line,
            error.column == column,
            error.message@ == message@,
    {
        CompileError { line, column, message: message.to_string() }
    }

    /// The error as one line of text: `line N: message`.
    pub fn to_string(&self) -> (text: String)
        ensures
            text@ == line_prefix() + decimal_digits(self.line as nat) + seq![':', ' '] + self.message@,
    {
        let mut text = String::new();
        push_str(&mut text, "line ");
        let number = decimal(self.line as u64);
        push_str(&mut text, number.as_str());
        push_str(&mut text, ": ");
        push_str(&mut text, self.message.as_str());
        proof {
            reveal_strlit("line ");
            reveal_strlit(": ");
        }
        assert(text@ =~= line_prefix() + decimal_digits(self.line as nat) + seq![':', ' '] + self.message@);
        text
    }
}

} // verus!
