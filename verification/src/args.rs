//! Selection of the stage after which the pipeline stops.

use vstd::prelude::*;

verus! {

/// The point at which a compilation stops.
#[derive(Debug, Clone, Copy, PartialEq, Eq, Structural)]
pub enum Stage {
    /// Stop once the source text has been split into tokens.
    Lex,
    /// Stop once the tokens have been parsed.
    Parse,
    /// Stop once the syntax tree has been lowered to instructions.
    CodeGen,
    /// Run the whole pipeline and produce assembly text.
    Compile,
}

/// The options given on the command line, as plain values.
#[derive(Debug)]
pub struct CliArgs {
    /// Path of the source file to compile.
    pub source_path: String,
    /// Stop after lexical analysis.
    pub lex: bool,
    /// Stop after parsing.
    pub parse: bool,
    /// Stop after code generation.
    pub codegen: bool,
}

/// The stage that a set of flags selects: the latest stage wins when
/// several stop flags are given, and with none the pipeline runs through.
pub open spec fn selected_stage(lex: bool, parse: bool, codegen: bool) -> Stage {
    if codegen {
        Stage::CodeGen
    } else if parse {
        Stage::Parse
    } else if lex {
        Stage::Lex
    } else {
        Stage::Compile
    }
}

/// Chooses the stop stage from the command-line flags.
pub fn stage_from_args(cli_args: &CliArgs) -> (stage: Stage)
    ensures
        stage == selected_stage(cli_args.lex, cli_args.parse, cli_args.codegen),
{
    if cli_args.codegen {
        return Stage::CodeGen;
    }
    if cli_args.parse {
        return Stage::Parse;
    }
    if cli_args.lex {
        return Stage::Lex;
    }
    Stage::Compile
}

} // verus!
