use vstd::prelude::*;
use vstd::string::StringSliceAdditionalSpecFns;
use crate::sieve::error::CompileError;
use crate::sieve::grammar::{all_forward, compile, distinct_names};
use crate::sieve::instruction::Instruction;
use crate::sieve::lexer::{spec_tokens, tokenize};
use crate::sieve::runtime::strs;
use crate::sieve::syntax::{compiled, ins_views};

verus! {

/// A compiled script: its instructions and the capabilities it required.
#[derive(Debug, Clone, PartialEq)]
pub struct Script {
    pub instructions: Vec<Instruction>,
    pub capabilities: Vec<String>,
}

impl Script {
    /// The capabilities that the script required, in the order first named.
    pub fn capabilities(&self) -> (capabilities: &[String])
        ensures
            capabilities@ == self.capabilities@,
    {
        self.capabilities.as_slice()
    }
}

/// The envelope of the message being filtered.
#[derive(Debug, Clone, Copy)]
pub struct Envelope<'a> {
    pub from: &'a str,
    pub to: &'a str,
}

/// What a script decided for a message.
#[derive(Debug, Clone, Default, PartialEq, Eq)]
pub struct Outcome {
    pub keep: bool,
    pub discarded: bool,
    pub file_into: Vec<String>,
    pub redirects: Vec<String>,
    pub flags: Vec<String>,
}

/// The execution limits of a script run: a step budget and a cap on
/// redirects.
#[derive(Debug, Clone)]
pub struct Limits {
    pub cpu: u32,
    pub max_redirects: usize,
}

impl Default for Limits {
    fn default() -> (limits: Self)
        ensures
            limits.cpu == 5000,
            limits.max_redirects == 4,
    {
        Limits { cpu: 5000, max_redirects: 4 }
    }
}

/// The limits a script must keep to compile: its size, the length of its
/// strings, the depth of its blocks and tests, and the length of its lists.
#[derive(Debug, Clone)]
pub struct CompilerLimits {
    pub max_script_size: usize,
    pub max_string_size: usize,
    pub max_nested_blocks: usize,
    pub max_nested_tests: usize,
    pub max_list_items: usize,
}

impl Default for CompilerLimits {
    fn default() -> (limits: Self)
        ensures
            limits.max_script_size == 128 * 1024,
            limits.max_string_size == 4096,
            limits.max_nested_blocks == 15,
            limits.max_nested_tests == 15,
            limits.max_list_items == 128,
    {
        CompilerLimits {
            max_script_size: 128 * 1024,
            max_string_size: 4096,
            max_nested_blocks: 15,
            max_nested_tests: 15,
            max_list_items: 128,
        }
    }
}

/// The extensions that scripts may require.
pub const CAPABILITIES: [&'static str; 5] = [
    "fileinto",
    "envelope",
    "imap4flags",
    "encoded-character",
    "comparator-i;octet",
];

/// The message for a script over the size limit.
pub const SIZE_EXCEEDED: &'static str = "script exceeds the maximum size";

/// Compiles scripts within fixed limits.
pub struct Compiler {
    pub limits: CompilerLimits,
}

impl Compiler {
    pub fn new() -> (compiler: Self)
        ensures
            compiler.limits.max_script_size == 128 * 1024,
            compiler.limits.max_string_size == 4096,
            compiler.limits.max_nested_blocks == 15,
            compiler.limits.max_nested_tests == 15,
            compiler.limits.max_list_items == 128,
    {
        Compiler { limits: CompilerLimits::default() }
    }

    /// Compiles a script. A script longer than the size limit is refused
    /// before it is read; otherwise its tokens are compiled as `compiled`
    /// says, and the first error of the scan or of the grammar is the result.
    /// In a compiled script every jump goes forward within the program and
    /// each required capability is listed once.
    pub fn compile(&self, source: &str) -> (r: Result<Script, CompileError>)
        ensures
            source.spec_bytes().len() > self.limits.max_script_size ==> (r matches Err(e) && e.line == 1
                && e.column == 1 && e.message@ == SIZE_EXCEEDED@),
            source.spec_bytes().len() <= self.limits.max_script_size ==> match spec_tokens(
                source.spec_bytes(),
                0,
                self.limits.max_string_size,
            ) {
                Err((l, c, m)) => r matches Err(e) && e.line == l && e.column == c && e.message@ == m,
                Ok(tokens) => match compiled(tokens, self.limits) {
                    Ok((ins, caps)) => r matches Ok(script) && ins_views(script.instructions@) == ins
                        && strs(script.capabilities@) == caps,
                    Err((l, c, m)) => r matches Err(e) && e.line == l && e.column == c && e.message@ == m,
                },
            },
            r matches Ok(script) ==> all_forward(script.instructions@) && distinct_names(script.capabilities@),
    {
        let size = source.as_bytes().len();
        if size > self.limits.max_script_size {
            return Err(CompileError::at(1, 1, SIZE_EXCEEDED));
        }
        let tokens = match tokenize(source, &self.limits) {
            Ok(tokens) => tokens,
            Err(e) => return Err(e),
        };
        let program = match compile(tokens, &self.limits) {
            Ok(program) => program,
            Err(e) => return Err(e),
        };
        Ok(Script { instructions: program.instructions, capabilities: program.capabilities })
    }
}

impl Default for Compiler {
    fn default() -> (compiler: Self)
        ensures
            compiler.limits.max_script_size == 128 * 1024,
            compiler.limits.max_string_size == 4096,
            compiler.limits.max_nested_blocks == 15,
            compiler.limits.max_nested_tests == 15,
            compiler.limits.max_list_items == 128,
    {
        Compiler::new()
    }
}

} // verus!
